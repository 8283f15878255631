//! Cross-shard two-phase commit from the client side: prepare every step, then
//! commit every step; a failed prepare aborts the steps prepared before it.
//! Progress is journaled so a restarted coordinator can resume.
use vstd::prelude::*;

use crate::ids::{bytes_eq, bytes_to_vec};
use vstd::string::StrSliceExecFns;

verus! {

/// One staged write of a transaction.
#[derive(Debug, Clone, PartialEq, Eq)]
pub struct TwoPhaseStep {
    /// Shard routing key.
    pub key: Vec<u8>,
    /// Application-encoded command.
    pub command: Vec<u8>,
}

/// A cross-shard transaction.
#[derive(Debug, Clone, PartialEq, Eq)]
pub struct TwoPhasePlan {
    /// Shared transaction id.
    pub tx_id: Vec<u8>,
    /// Steps, prepared and committed in order.
    pub steps: Vec<TwoPhaseStep>,
}

/// Journal persistence failure.
#[derive(Debug, Clone, PartialEq, Eq)]
pub enum TwoPhaseJournalError {
    /// Journal record encode/decode failed.
    Codec(String),
    /// Underlying journal storage backend failed.
    Backend(String),
}

/// Lifecycle events for metrics / logging.
#[derive(Debug, Clone, Copy, PartialEq, Eq, Structural)]
pub enum TwoPhaseEvent {
    /// All prepare steps succeeded (ready for commit phase).
    Prepared {
        /// Number of prepared steps.
        steps: usize,
    },
    /// Coordinator stuck after partial progress (abort or commit failed).
    Stuck {
        /// Steps prepared before failure.
        prepared: usize,
        /// Step index where failure occurred.
        failed_step: usize,
    },
}

/// Client-side durable progress for resume.
#[derive(Debug, Clone, PartialEq, Eq)]
pub struct TwoPhaseJournalRecord {
    /// Shared transaction id.
    pub tx_id: Vec<u8>,
    /// Count of consecutive prepared steps from step 0.
    pub prepared_steps: u32,
    /// Count of consecutive committed steps from step 0.
    pub committed_steps: u32,
}

/// A journal record as a mathematical value.
pub struct TxRecordModel {
    pub tx_id: Seq<u8>,
    pub prepared_steps: u32,
    pub committed_steps: u32,
}

impl View for TwoPhaseJournalRecord {
    type V = TxRecordModel;

    open spec fn view(&self) -> TxRecordModel {
        TxRecordModel { tx_id: self.tx_id@, prepared_steps: self.prepared_steps, committed_steps: self.committed_steps }
    }
}

impl TwoPhaseJournalRecord {
    /// A copy of the record.
    pub fn duplicate(&self) -> (c: Self)
        ensures
            c@ == self@,
    {
        TwoPhaseJournalRecord {
            tx_id: bytes_to_vec(self.tx_id.as_slice()),
            prepared_steps: self.prepared_steps,
            committed_steps: self.committed_steps,
        }
    }
}

pub open spec fn tx_first_pos(recs: Seq<TxRecordModel>, id: Seq<u8>, i: int) -> bool {
    0 <= i < recs.len() && recs[i].tx_id == id && forall|j: int| 0 <= j < i ==> recs[j].tx_id != id
}

/// Records after updating the one for `id` with `f` (a zeroed record is added
/// last when there is none).
pub open spec fn tx_upsert(recs: Seq<TxRecordModel>, id: Seq<u8>, f: spec_fn(TxRecordModel) -> TxRecordModel) -> Seq<
    TxRecordModel,
> {
    if exists|i: int| tx_first_pos(recs, id, i) {
        let i = choose|i: int| tx_first_pos(recs, id, i);
        recs.update(i, f(recs[i]))
    } else {
        recs.push(f(TxRecordModel { tx_id: id, prepared_steps: 0, committed_steps: 0 }))
    }
}

/// The record kept for `id`, if any.
pub open spec fn tx_record_of(recs: Seq<TxRecordModel>, id: Seq<u8>) -> Option<TxRecordModel> {
    if exists|i: int| tx_first_pos(recs, id, i) {
        Some(recs[choose|i: int| tx_first_pos(recs, id, i)])
    } else {
        None
    }
}

pub open spec fn tx_records_model(recs: Seq<TwoPhaseJournalRecord>) -> Seq<TxRecordModel> {
    recs.map_values(|r: TwoPhaseJournalRecord| r@)
}

pub open spec fn max_u32(a: u32, b: u32) -> u32 {
    if a >= b { a } else { b }
}

/// In-memory 2PC journal.
pub struct InMemoryTwoPhaseJournal {
    records: Vec<TwoPhaseJournalRecord>,
}

impl InMemoryTwoPhaseJournal {
    /// Records in the order their transactions were first journaled.
    pub closed spec fn model(&self) -> Seq<TxRecordModel> {
        tx_records_model(self.records@)
    }

    /// Empty journal.
    pub fn new() -> (j: Self)
        ensures
            j.model() == Seq::<TxRecordModel>::empty(),
    {
        let j = InMemoryTwoPhaseJournal { records: Vec::new() };
        assert(tx_records_model(j.records@) =~= Seq::<TxRecordModel>::empty());
        j
    }

    /// Snapshot persisted journal records.
    pub fn records(&self) -> (v: Vec<TwoPhaseJournalRecord>)
        ensures
            tx_records_model(v@) == self.model(),
    {
        let mut v: Vec<TwoPhaseJournalRecord> = Vec::new();
        let mut i: usize = 0;
        while i < self.records.len()
            invariant
                0 <= i <= self.records@.len(),
                v@.len() == i,
                forall|k: int| 0 <= k < i ==> (#[trigger] v@[k])@ == self.records@[k]@,
            decreases self.records@.len() - i,
        {
            let r = self.records[i].duplicate();
            v.push(r);
            i = i + 1;
        }
        assert(tx_records_model(v@) =~= tx_records_model(self.records@));
        v
    }

    fn position(&self, id: &[u8]) -> (r: Option<usize>)
        ensures
            r matches Some(i) ==> tx_first_pos(self.model(), id@, i as int),
            r is None ==> !exists|i: int| tx_first_pos(self.model(), id@, i),
    {
        let mut i: usize = 0;
        while i < self.records.len()
            invariant
                0 <= i <= self.records@.len(),
                forall|j: int| 0 <= j < i ==> self.model()[j].tx_id != id@,
            decreases self.records@.len() - i,
        {
            if bytes_eq(self.records[i].tx_id.as_slice(), id) {
                return Some(i);
            }
            i = i + 1;
        }
        None
    }

    fn take_record(&self, id: &[u8]) -> (r: (Option<usize>, TwoPhaseJournalRecord))
        ensures
            match r.0 {
                Some(i) => tx_first_pos(self.model(), id@, i as int) && r.1@ == self.model()[i as int],
                None => !(exists|i: int| tx_first_pos(self.model(), id@, i)) && r.1@ == (TxRecordModel {
                    tx_id: id@,
                    prepared_steps: 0,
                    committed_steps: 0,
                }),
            },
    {
        match self.position(id) {
            Some(i) => (Some(i), self.records[i].duplicate()),
            None => (None, TwoPhaseJournalRecord { tx_id: bytes_to_vec(id), prepared_steps: 0, committed_steps: 0 }),
        }
    }

    fn put_record(&mut self, at: Option<usize>, rec: TwoPhaseJournalRecord)
        requires
            at matches Some(i) ==> i < old(self).model().len(),
        ensures
            final(self).model() == match at {
                Some(i) => old(self).model().update(i as int, rec@),
                None => old(self).model().push(rec@),
            },
    {
        let ghost m = self.model();
        match at {
            Some(i) => {
                self.records.set(i, rec);
                assert(tx_records_model(self.records@) =~= m.update(i as int, rec@));
            },
            None => {
                self.records.push(rec);
                assert(tx_records_model(self.records@) =~= m.push(rec@));
            },
        }
    }

    /// Step `step` prepared: at least `step + 1` steps are prepared.
    pub fn on_prepared(&mut self, tx_id: &[u8], step: usize, total: usize) -> (r: Result<(), TwoPhaseJournalError>)
        requires
            step < u32::MAX,
        ensures
            r is Ok,
            final(self).model() == tx_upsert(old(self).model(), tx_id@, |x: TxRecordModel| TxRecordModel {
                prepared_steps: max_u32((step + 1) as u32, x.prepared_steps),
                ..x
            }),
    {
        let (at, mut rec) = self.take_record(tx_id);
        let p = (step as u32) + 1;
        rec.prepared_steps = if p >= rec.prepared_steps { p } else { rec.prepared_steps };
        self.put_record(at, rec);
        Ok(())
    }

    /// Step `step` committed: at least `step + 1` steps are committed.
    pub fn on_committed(&mut self, tx_id: &[u8], step: usize, total: usize) -> (r: Result<(), TwoPhaseJournalError>)
        requires
            step < u32::MAX,
        ensures
            r is Ok,
            final(self).model() == tx_upsert(old(self).model(), tx_id@, |x: TxRecordModel| TxRecordModel {
                committed_steps: max_u32((step + 1) as u32, x.committed_steps),
                ..x
            }),
    {
        let (at, mut rec) = self.take_record(tx_id);
        let c = (step as u32) + 1;
        rec.committed_steps = if c >= rec.committed_steps { c } else { rec.committed_steps };
        self.put_record(at, rec);
        Ok(())
    }

    /// The transaction fully committed: every prepared step counts as committed.
    pub fn on_completed(&mut self, tx_id: &[u8]) -> (r: Result<(), TwoPhaseJournalError>)
        ensures
            r is Ok,
            final(self).model() == tx_upsert(old(self).model(), tx_id@, |x: TxRecordModel| TxRecordModel {
                committed_steps: x.prepared_steps,
                ..x
            }),
    {
        let (at, mut rec) = self.take_record(tx_id);
        rec.committed_steps = rec.prepared_steps;
        self.put_record(at, rec);
        Ok(())
    }

    /// Coordinator progress for `tx_id`, if any.
    pub fn load(&self, tx_id: &[u8]) -> (r: Result<Option<TwoPhaseJournalRecord>, TwoPhaseJournalError>)
        ensures
            r matches Ok(o) && match tx_record_of(self.model(), tx_id@) {
                Some(m) => o matches Some(x) && x@ == m,
                None => o is None,
            },
    {
        match self.position(tx_id) {
            Some(i) => {
                proof {
                    let m = self.model();
                    let c = choose|k: int| tx_first_pos(m, tx_id@, k);
                    assert(tx_first_pos(m, tx_id@, c));
                    if c < i {
                        assert(m[c].tx_id != tx_id@);
                    }
                    if c > i {
                        assert(m[i as int].tx_id != tx_id@);
                    }
                }
                Ok(Some(self.records[i].duplicate()))
            },
            None => Ok(None),
        }
    }
}

// ---------------------------------------------------------------------------
// Coordinator
// ---------------------------------------------------------------------------

/// Why a transaction attempt stopped.
#[derive(Debug, Clone, Copy, PartialEq, Eq, Structural)]
pub enum TwoPhaseFinish {
    /// Every step committed.
    Committed,
    /// The prepare of `step` failed (`step` steps had been prepared).
    PrepareFailed { step: usize },
    /// The commit of `step` failed (`step` steps had been committed).
    CommitFailed { step: usize },
}

/// What a resumed step does next.
#[derive(Debug, Clone, Copy, PartialEq, Eq, Structural)]
pub enum ResumeStage {
    /// Try the commit first: a prepare may already be durable on the shard.
    Probe,
    /// Stage the command.
    Prepare,
    /// Commit the staged command.
    Commit,
}

/// Where a 2PC coordinator stands.
#[derive(Debug, Clone, Copy, PartialEq, Eq, Structural)]
pub enum TwoPhaseState {
    /// Steps before `next` prepared; `next` is prepared next.
    Preparing { next: usize },
    /// The prepare of `failed` failed; the steps `0..remaining` are still to be
    /// aborted, last first; `clean` while every abort so far succeeded.
    Aborting { failed: usize, remaining: usize, clean: bool },
    /// All steps prepared; steps before `next` committed.
    Committing { next: usize },
    /// Resuming: commit the journaled prepared-but-uncommitted steps `next..until`,
    /// then go on from step `from`.
    ResumeCommitting { next: usize, until: usize, from: usize },
    /// Resuming step by step from `next`.
    Resuming { next: usize, stage: ResumeStage },
    /// Finished.
    Done(TwoPhaseFinish),
}

/// The next shard request.
#[derive(Debug, Clone, Copy, PartialEq, Eq, Structural)]
pub enum TwoPhaseCall {
    /// Stage the command of this step.
    Prepare(usize),
    /// Commit this step.
    Commit(usize),
    /// Abort this prepared step.
    Abort(usize),
}

/// How a shard request ended.
#[derive(Debug, Clone, Copy, PartialEq, Eq, Structural)]
pub enum CallOutcome {
    /// It succeeded.
    Succeeded,
    /// A commit found no prepared command for the key.
    NotPrepared,
    /// Any other failure.
    Failed,
}

/// A journal write.
#[derive(Debug, Clone, Copy, PartialEq, Eq, Structural)]
pub enum TwoPhaseWrite {
    /// `on_prepared(step)`.
    Prepared(usize),
    /// `on_committed(step)`.
    Committed(usize),
    /// `on_completed`.
    Completed,
}

/// What a transition asks the runner to do besides moving on.
#[derive(Debug, Clone, Copy, PartialEq, Eq, Structural)]
pub struct TwoPhaseEffects {
    /// Journal writes, in order.
    pub first: Option<TwoPhaseWrite>,
    pub second: Option<TwoPhaseWrite>,
    /// Lifecycle event to emit.
    pub event: Option<TwoPhaseEvent>,
    /// The successful commit's response belongs to the result.
    pub keep_response: bool,
}

pub open spec fn no_effects() -> TwoPhaseEffects {
    TwoPhaseEffects { first: None, second: None, event: None, keep_response: false }
}

pub open spec fn write1(w: TwoPhaseWrite) -> TwoPhaseEffects {
    TwoPhaseEffects { first: Some(w), second: None, event: None, keep_response: false }
}

pub open spec fn stuck(prepared: usize, failed_step: usize) -> TwoPhaseEffects {
    TwoPhaseEffects { first: None, second: None, event: Some(TwoPhaseEvent::Stuck { prepared, failed_step }), keep_response: false }
}

/// The request a coordinator in `s` makes next (`n` steps, probing on resume when `probe`).
pub open spec fn tp_call(s: TwoPhaseState, n: usize, probe: bool) -> Option<TwoPhaseCall> {
    match s {
        TwoPhaseState::Preparing { next } => if next < n { Some(TwoPhaseCall::Prepare(next)) } else { None },
        TwoPhaseState::Aborting { remaining, .. } => if remaining > 0 {
            Some(TwoPhaseCall::Abort((remaining - 1) as usize))
        } else {
            None
        },
        TwoPhaseState::Committing { next } => if next < n { Some(TwoPhaseCall::Commit(next)) } else { None },
        TwoPhaseState::ResumeCommitting { next, until, .. } => if next < until {
            Some(TwoPhaseCall::Commit(next))
        } else {
            None
        },
        TwoPhaseState::Resuming { next, stage } => if next < n {
            match stage {
                ResumeStage::Probe => if probe { Some(TwoPhaseCall::Commit(next)) } else { Some(TwoPhaseCall::Prepare(next)) },
                ResumeStage::Prepare => Some(TwoPhaseCall::Prepare(next)),
                ResumeStage::Commit => Some(TwoPhaseCall::Commit(next)),
            }
        } else {
            None
        },
        TwoPhaseState::Done(_) => None,
    }
}

/// State and effects after the pending request ended with `o`.
pub open spec fn tp_after(s: TwoPhaseState, n: usize, probe: bool, o: CallOutcome) -> (TwoPhaseState, TwoPhaseEffects) {
    let ok = o == CallOutcome::Succeeded;
    match s {
        TwoPhaseState::Preparing { next } => if ok {
            (TwoPhaseState::Preparing { next: (next + 1) as usize }, write1(TwoPhaseWrite::Prepared(next)))
        } else {
            (TwoPhaseState::Aborting { failed: next, remaining: next, clean: true }, no_effects())
        },
        TwoPhaseState::Aborting { failed, remaining, clean } => (
            TwoPhaseState::Aborting { failed, remaining: (remaining - 1) as usize, clean: clean && ok },
            no_effects(),
        ),
        TwoPhaseState::Committing { next } => if ok {
            (
                TwoPhaseState::Committing { next: (next + 1) as usize },
                TwoPhaseEffects { first: Some(TwoPhaseWrite::Committed(next)), second: None, event: None, keep_response: true },
            )
        } else {
            (TwoPhaseState::Done(TwoPhaseFinish::CommitFailed { step: next }), stuck(n, next))
        },
        TwoPhaseState::ResumeCommitting { next, until, from } => if ok {
            (
                TwoPhaseState::ResumeCommitting { next: (next + 1) as usize, until, from },
                TwoPhaseEffects { first: Some(TwoPhaseWrite::Committed(next)), second: None, event: None, keep_response: true },
            )
        } else {
            (TwoPhaseState::Done(TwoPhaseFinish::CommitFailed { step: next }), no_effects())
        },
        TwoPhaseState::Resuming { next, stage } => match stage {
            ResumeStage::Probe => if !probe {
                if ok {
                    (TwoPhaseState::Resuming { next, stage: ResumeStage::Commit }, write1(TwoPhaseWrite::Prepared(next)))
                } else {
                    (TwoPhaseState::Done(TwoPhaseFinish::PrepareFailed { step: next }), stuck(next, next))
                }
            } else if ok {
                (
                    TwoPhaseState::Resuming { next: (next + 1) as usize, stage: ResumeStage::Probe },
                    TwoPhaseEffects {
                        first: Some(TwoPhaseWrite::Prepared(next)),
                        second: Some(TwoPhaseWrite::Committed(next)),
                        event: None,
                        keep_response: true,
                    },
                )
            } else if o == CallOutcome::NotPrepared {
                (TwoPhaseState::Resuming { next, stage: ResumeStage::Prepare }, no_effects())
            } else {
                (TwoPhaseState::Done(TwoPhaseFinish::CommitFailed { step: next }), stuck(next, next))
            },
            ResumeStage::Prepare => if ok {
                (TwoPhaseState::Resuming { next, stage: ResumeStage::Commit }, write1(TwoPhaseWrite::Prepared(next)))
            } else {
                (TwoPhaseState::Done(TwoPhaseFinish::PrepareFailed { step: next }), stuck(next, next))
            },
            ResumeStage::Commit => if ok {
                (
                    TwoPhaseState::Resuming { next: (next + 1) as usize, stage: ResumeStage::Probe },
                    TwoPhaseEffects { first: Some(TwoPhaseWrite::Committed(next)), second: None, event: None, keep_response: true },
                )
            } else {
                (TwoPhaseState::Done(TwoPhaseFinish::CommitFailed { step: next }), stuck(next, next))
            },
        },
        TwoPhaseState::Done(_) => (s, no_effects()),
    }
}

/// How a coordinator with nothing left to request moves on.
pub open spec fn tp_settle(s: TwoPhaseState, n: usize) -> (TwoPhaseState, TwoPhaseEffects) {
    match s {
        TwoPhaseState::Preparing { .. } => (
            TwoPhaseState::Committing { next: 0 },
            TwoPhaseEffects { first: None, second: None, event: Some(TwoPhaseEvent::Prepared { steps: n }), keep_response: false },
        ),
        TwoPhaseState::Aborting { failed, clean, .. } => (
            TwoPhaseState::Done(TwoPhaseFinish::PrepareFailed { step: failed }),
            if clean { no_effects() } else { stuck(failed, failed) },
        ),
        TwoPhaseState::Committing { .. } => (TwoPhaseState::Done(TwoPhaseFinish::Committed), write1(TwoPhaseWrite::Completed)),
        TwoPhaseState::ResumeCommitting { from, .. } => (TwoPhaseState::Resuming { next: from, stage: ResumeStage::Probe }, no_effects()),
        TwoPhaseState::Resuming { .. } => (TwoPhaseState::Done(TwoPhaseFinish::Committed), write1(TwoPhaseWrite::Completed)),
        TwoPhaseState::Done(_) => (s, no_effects()),
    }
}

/// Requests stay inside the plan.
pub open spec fn tp_state_ok(s: TwoPhaseState, n: usize) -> bool {
    match s {
        TwoPhaseState::Aborting { remaining, .. } => remaining <= n,
        TwoPhaseState::ResumeCommitting { until, .. } => until <= n,
        _ => true,
    }
}

/// The request the coordinator makes next.
pub fn two_phase_next_call(s: TwoPhaseState, n: usize, probe: bool) -> (c: Option<TwoPhaseCall>)
    ensures
        c == tp_call(s, n, probe),
        tp_state_ok(s, n) ==> match c {
            Some(TwoPhaseCall::Prepare(i)) => i < n,
            Some(TwoPhaseCall::Commit(i)) => i < n,
            Some(TwoPhaseCall::Abort(i)) => i < n,
            None => true,
        },
{
    match s {
        TwoPhaseState::Preparing { next } => if next < n { Some(TwoPhaseCall::Prepare(next)) } else { None },
        TwoPhaseState::Aborting { remaining, .. } => if remaining > 0 {
            Some(TwoPhaseCall::Abort(remaining - 1))
        } else {
            None
        },
        TwoPhaseState::Committing { next } => if next < n { Some(TwoPhaseCall::Commit(next)) } else { None },
        TwoPhaseState::ResumeCommitting { next, until, .. } => if next < until {
            Some(TwoPhaseCall::Commit(next))
        } else {
            None
        },
        TwoPhaseState::Resuming { next, stage } => if next < n {
            match stage {
                ResumeStage::Probe => if probe { Some(TwoPhaseCall::Commit(next)) } else { Some(TwoPhaseCall::Prepare(next)) },
                ResumeStage::Prepare => Some(TwoPhaseCall::Prepare(next)),
                ResumeStage::Commit => Some(TwoPhaseCall::Commit(next)),
            }
        } else {
            None
        },
        TwoPhaseState::Done(_) => None,
    }
}

/// Record how the pending request ended.
pub fn two_phase_after_call(s: TwoPhaseState, n: usize, probe: bool, o: CallOutcome) -> (r: (TwoPhaseState, TwoPhaseEffects))
    requires
        tp_call(s, n, probe) is Some,
        tp_state_ok(s, n),
    ensures
        r == tp_after(s, n, probe, o),
        tp_state_ok(r.0, n),
{
    let ok = o == CallOutcome::Succeeded;
    let none = TwoPhaseEffects { first: None, second: None, event: None, keep_response: false };
    match s {
        TwoPhaseState::Preparing { next } => if ok {
            (
                TwoPhaseState::Preparing { next: next + 1 },
                TwoPhaseEffects { first: Some(TwoPhaseWrite::Prepared(next)), second: None, event: None, keep_response: false },
            )
        } else {
            (TwoPhaseState::Aborting { failed: next, remaining: next, clean: true }, none)
        },
        TwoPhaseState::Aborting { failed, remaining, clean } => (
            TwoPhaseState::Aborting { failed, remaining: remaining - 1, clean: clean && ok },
            none,
        ),
        TwoPhaseState::Committing { next } => if ok {
            (
                TwoPhaseState::Committing { next: next + 1 },
                TwoPhaseEffects { first: Some(TwoPhaseWrite::Committed(next)), second: None, event: None, keep_response: true },
            )
        } else {
            (
                TwoPhaseState::Done(TwoPhaseFinish::CommitFailed { step: next }),
                TwoPhaseEffects { first: None, second: None, event: Some(TwoPhaseEvent::Stuck { prepared: n, failed_step: next }), keep_response: false },
            )
        },
        TwoPhaseState::ResumeCommitting { next, until, from } => if ok {
            (
                TwoPhaseState::ResumeCommitting { next: next + 1, until, from },
                TwoPhaseEffects { first: Some(TwoPhaseWrite::Committed(next)), second: None, event: None, keep_response: true },
            )
        } else {
            (TwoPhaseState::Done(TwoPhaseFinish::CommitFailed { step: next }), none)
        },
        TwoPhaseState::Resuming { next, stage } => {
            let stuck_here = TwoPhaseEffects {
                first: None,
                second: None,
                event: Some(TwoPhaseEvent::Stuck { prepared: next, failed_step: next }),
                keep_response: false,
            };
            match stage {
                ResumeStage::Probe => if !probe {
                    if ok {
                        (
                            TwoPhaseState::Resuming { next, stage: ResumeStage::Commit },
                            TwoPhaseEffects { first: Some(TwoPhaseWrite::Prepared(next)), second: None, event: None, keep_response: false },
                        )
                    } else {
                        (TwoPhaseState::Done(TwoPhaseFinish::PrepareFailed { step: next }), stuck_here)
                    }
                } else if ok {
                    (
                        TwoPhaseState::Resuming { next: next + 1, stage: ResumeStage::Probe },
                        TwoPhaseEffects {
                            first: Some(TwoPhaseWrite::Prepared(next)),
                            second: Some(TwoPhaseWrite::Committed(next)),
                            event: None,
                            keep_response: true,
                        },
                    )
                } else if o == CallOutcome::NotPrepared {
                    (TwoPhaseState::Resuming { next, stage: ResumeStage::Prepare }, none)
                } else {
                    (TwoPhaseState::Done(TwoPhaseFinish::CommitFailed { step: next }), stuck_here)
                },
                ResumeStage::Prepare => if ok {
                    (
                        TwoPhaseState::Resuming { next, stage: ResumeStage::Commit },
                        TwoPhaseEffects { first: Some(TwoPhaseWrite::Prepared(next)), second: None, event: None, keep_response: false },
                    )
                } else {
                    (TwoPhaseState::Done(TwoPhaseFinish::PrepareFailed { step: next }), stuck_here)
                },
                ResumeStage::Commit => if ok {
                    (
                        TwoPhaseState::Resuming { next: next + 1, stage: ResumeStage::Probe },
                        TwoPhaseEffects { first: Some(TwoPhaseWrite::Committed(next)), second: None, event: None, keep_response: true },
                    )
                } else {
                    (TwoPhaseState::Done(TwoPhaseFinish::CommitFailed { step: next }), stuck_here)
                },
            }
        },
        TwoPhaseState::Done(_) => (s, none),
    }
}

/// Move on when there is nothing left to request.
pub fn two_phase_settle(s: TwoPhaseState, n: usize, probe: bool) -> (r: (TwoPhaseState, TwoPhaseEffects))
    requires
        tp_call(s, n, probe) is None,
    ensures
        r == tp_settle(s, n),
{
    let none = TwoPhaseEffects { first: None, second: None, event: None, keep_response: false };
    match s {
        TwoPhaseState::Preparing { .. } => (
            TwoPhaseState::Committing { next: 0 },
            TwoPhaseEffects { first: None, second: None, event: Some(TwoPhaseEvent::Prepared { steps: n }), keep_response: false },
        ),
        TwoPhaseState::Aborting { failed, clean, .. } => (
            TwoPhaseState::Done(TwoPhaseFinish::PrepareFailed { step: failed }),
            if clean {
                none
            } else {
                TwoPhaseEffects {
                    first: None,
                    second: None,
                    event: Some(TwoPhaseEvent::Stuck { prepared: failed, failed_step: failed }),
                    keep_response: false,
                }
            },
        ),
        TwoPhaseState::Committing { .. } => (
            TwoPhaseState::Done(TwoPhaseFinish::Committed),
            TwoPhaseEffects { first: Some(TwoPhaseWrite::Completed), second: None, event: None, keep_response: false },
        ),
        TwoPhaseState::ResumeCommitting { from, .. } => (TwoPhaseState::Resuming { next: from, stage: ResumeStage::Probe }, none),
        TwoPhaseState::Resuming { .. } => (
            TwoPhaseState::Done(TwoPhaseFinish::Committed),
            TwoPhaseEffects { first: Some(TwoPhaseWrite::Completed), second: None, event: None, keep_response: false },
        ),
        TwoPhaseState::Done(_) => (s, none),
    }
}

/// Where a resume starts from the journaled prefixes (`None` without a journal
/// record): the committed prefix is skipped (its responses are empty), the
/// prepared-but-uncommitted steps are committed, then every later step is
/// resumed one by one. Returns the state and the number of skipped responses.
pub fn two_phase_resume_start(n: usize, record: Option<&TwoPhaseJournalRecord>) -> (r: (TwoPhaseState, usize))
    ensures
        ({
            let (p, c) = match record {
                Some(rec) => (rec.prepared_steps as int, rec.committed_steps as int),
                None => (0int, 0int),
            };
            let until = if p < n { p } else { n as int };
            &&& r.0 == (TwoPhaseState::ResumeCommitting { next: c as usize, until: until as usize, from: p as usize })
            &&& r.1 as int == if c < n { c } else { n as int }
        }),
{
    let (p, c): (usize, usize) = match record {
        Some(rec) => (rec.prepared_steps as usize, rec.committed_steps as usize),
        None => (0, 0),
    };
    let until = if p < n { p } else { n };
    let skipped = if c < n { c } else { n };
    (TwoPhaseState::ResumeCommitting { next: c, until, from: p }, skipped)
}

/// `k` prepares succeed in a row from `s`.
pub open spec fn prepare_ok_times(s: TwoPhaseState, n: usize, k: nat) -> TwoPhaseState
    decreases k,
{
    if k == 0 {
        s
    } else {
        tp_after(prepare_ok_times(s, n, (k - 1) as nat), n, false, CallOutcome::Succeeded).0
    }
}

/// Aborts ending with `outcomes` in order, from `s`.
pub open spec fn aborts(s: TwoPhaseState, n: usize, outcomes: Seq<CallOutcome>) -> TwoPhaseState
    decreases outcomes.len(),
{
    if outcomes.len() == 0 {
        s
    } else {
        tp_after(aborts(s, n, outcomes.drop_last()), n, false, outcomes.last()).0
    }
}

/// Nothing is committed before everything is prepared: every prepare moves the
/// coordinator on to the next prepare or to aborting, and it reaches the
/// commit phase only once all `n` steps are prepared.
pub proof fn law_commit_only_after_all_prepared(n: usize, k: nat, o: CallOutcome)
    requires
        k <= n,
    ensures
        prepare_ok_times(TwoPhaseState::Preparing { next: 0 }, n, k) == (TwoPhaseState::Preparing { next: k as usize }),
        k < n ==> tp_call(TwoPhaseState::Preparing { next: k as usize }, n, false) == Some(TwoPhaseCall::Prepare(k as usize)),
        k < n ==> !(tp_after(TwoPhaseState::Preparing { next: k as usize }, n, false, o).0 is Committing),
        tp_settle(TwoPhaseState::Preparing { next: n }, n).0 == (TwoPhaseState::Committing { next: 0 }),
        tp_settle(TwoPhaseState::Preparing { next: n }, n).1.event == Some(TwoPhaseEvent::Prepared { steps: n }),
    decreases k,
{
    if k > 0 {
        law_commit_only_after_all_prepared(n, (k - 1) as nat, o);
    }
}

/// A failed prepare of step `f` aborts every step prepared before it, last
/// first, whatever each abort answers; the attempt then fails at `f`, reported
/// as stuck exactly when some abort failed.
pub proof fn law_failed_prepare_aborts_prepared_steps(n: usize, f: usize, outcomes: Seq<CallOutcome>)
    requires
        f < n,
        outcomes.len() <= f,
    ensures
        tp_after(TwoPhaseState::Preparing { next: f }, n, false, CallOutcome::Failed).0 == (TwoPhaseState::Aborting {
            failed: f,
            remaining: f,
            clean: true,
        }),
        aborts(TwoPhaseState::Aborting { failed: f, remaining: f, clean: true }, n, outcomes) == (TwoPhaseState::Aborting {
            failed: f,
            remaining: (f - outcomes.len()) as usize,
            clean: forall|i: int| 0 <= i < outcomes.len() ==> outcomes[i] == CallOutcome::Succeeded,
        }),
        outcomes.len() < f ==> tp_call(
            aborts(TwoPhaseState::Aborting { failed: f, remaining: f, clean: true }, n, outcomes),
            n,
            false,
        ) == Some(TwoPhaseCall::Abort((f - 1 - outcomes.len()) as usize)),
        outcomes.len() == f ==> tp_settle(aborts(TwoPhaseState::Aborting { failed: f, remaining: f, clean: true }, n, outcomes), n).0
            == TwoPhaseState::Done(TwoPhaseFinish::PrepareFailed { step: f }),
    decreases outcomes.len(),
{
    if outcomes.len() > 0 {
        let pre = outcomes.drop_last();
        law_failed_prepare_aborts_prepared_steps(n, f, pre);
        let all_pre = forall|i: int| 0 <= i < pre.len() ==> pre[i] == CallOutcome::Succeeded;
        let all = forall|i: int| 0 <= i < outcomes.len() ==> outcomes[i] == CallOutcome::Succeeded;
        assert(all == (all_pre && outcomes.last() == CallOutcome::Succeeded)) by {
            if all {
                assert forall|i: int| 0 <= i < pre.len() implies pre[i] == CallOutcome::Succeeded by {
                    assert(pre[i] == outcomes[i]);
                }
                assert(outcomes[outcomes.len() - 1] == CallOutcome::Succeeded);
            }
            if all_pre && outcomes.last() == CallOutcome::Succeeded {
                assert forall|i: int| 0 <= i < outcomes.len() implies outcomes[i] == CallOutcome::Succeeded by {
                    if i < pre.len() {
                        assert(pre[i] == outcomes[i]);
                    }
                }
            }
        }
    }
}


/// `needle` occurs in `hay` starting at position `i`.
pub open spec fn occurs_at(hay: Seq<char>, needle: Seq<char>, i: int) -> bool {
    0 <= i && i + needle.len() <= hay.len() && hay.subrange(i, i + needle.len()) == needle
}

/// `needle` occurs somewhere in `hay`.
pub open spec fn contains_text(hay: Seq<char>, needle: Seq<char>) -> bool {
    exists|i: int| occurs_at(hay, needle, i)
}

/// The characters of `s`.
fn chars_of(s: &str) -> (v: Vec<char>)
    ensures
        v@ == s@,
{
    let n = s.unicode_len();
    let mut v: Vec<char> = Vec::new();
    let mut i: usize = 0;
    while i < n
        invariant
            n == s@.len(),
            0 <= i <= n,
            v@ == s@.subrange(0, i as int),
        decreases n - i,
    {
        v.push(s.get_char(i));
        i = i + 1;
        assert(v@ =~= s@.subrange(0, i as int));
    }
    assert(s@.subrange(0, n as int) =~= s@);
    v
}

/// A shard error message saying that a commit found no prepared command: it
/// contains `no prepared command for transaction key`.
pub fn is_no_prepared(msg: &str) -> (r: bool)
    ensures
        r == contains_text(msg@, "no prepared command for transaction key"@),
{
    let hv = chars_of(msg);
    let nv = chars_of("no prepared command for transaction key");
    let hn = hv.len();
    let nn = nv.len();
    if nn > hn {
        proof {
            assert forall|i: int| !occurs_at(msg@, "no prepared command for transaction key"@, i) by {}
        }
        return false;
    }
    let mut i: usize = 0;
    while i <= hn - nn
        invariant
            hv@ == msg@,
            nv@ == "no prepared command for transaction key"@,
            hn == hv@.len(),
            nn == nv@.len(),
            nn <= hn,
            0 <= i <= hn - nn + 1,
            forall|k: int| 0 <= k < i ==> !occurs_at(hv@, nv@, k),
        decreases hn - nn + 1 - i,
    {
        let mut j: usize = 0;
        let mut same = true;
        while j < nn && same
            invariant
                hv@ == msg@,
                nn == nv@.len(),
                hn == hv@.len(),
                i + nn <= hn,
                0 <= j <= nn,
                same ==> forall|t: int| 0 <= t < j ==> hv@[i + t] == nv@[t],
                !same ==> j > 0 && hv@[i + j - 1] != nv@[j - 1],
            decreases nn - j, if same { 1int } else { 0int },
        {
            if hv[i + j] != nv[j] {
                same = false;
            }
            j = j + 1;
        }
        if same {
            proof {
                assert(hv@.subrange(i as int, i + nn) =~= nv@);
                assert(occurs_at(hv@, nv@, i as int));
            }
            return true;
        }
        proof {
            assert(!occurs_at(hv@, nv@, i as int)) by {
                if occurs_at(hv@, nv@, i as int) {
                    assert(hv@.subrange(i as int, i + nn)[j - 1] == nv@[j - 1]);
                }
            }
        }
        i = i + 1;
    }
    proof {
        assert forall|k: int| !occurs_at(hv@, nv@, k) by {
            if 0 <= k && k + nn <= hn {
                assert(k < i);
            }
        }
    }
    false
}

} // verus!
