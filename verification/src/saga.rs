//! Cross-shard sagas: ordered forward writes, each with a compensating write on
//! the same shard that undoes it. The coordinator runs the forward steps in
//! order; when one fails it runs the compensators of the committed steps in
//! reverse. Progress is journaled so a restarted coordinator can resume.
use vstd::prelude::*;

use crate::ids::{bytes_eq, bytes_to_vec};

verus! {

/// One forward step with a compensating keyed write on the same shard.
#[derive(Debug, Clone, PartialEq, Eq)]
pub struct SagaStep {
    /// Shard routing key (same shard for forward + compensate).
    pub key: Vec<u8>,
    /// Application-encoded forward command.
    pub command: Vec<u8>,
    /// Application-encoded compensate command (must be idempotent).
    pub compensate: Vec<u8>,
}

/// Ordered cross-shard write plan.
#[derive(Debug, Clone, PartialEq, Eq)]
pub struct SagaPlan {
    /// Unique saga id (journal key / idempotency scope).
    pub saga_id: Vec<u8>,
    /// Steps executed in order; compensators run in reverse on forward failure.
    pub steps: Vec<SagaStep>,
}

/// Journal persistence failure.
#[derive(Debug, Clone, PartialEq, Eq)]
pub enum SagaJournalError {
    /// Encode/decode of journal records failed.
    Codec(String),
    /// Backend refused the write.
    Backend(String),
}

/// Why a saga could not finish cleanly.
#[derive(Debug, Clone, PartialEq, Eq)]
pub enum SagaError {
    /// A compensate command failed after partial forward progress.
    CompensationFailed {
        /// Forward step that failed.
        failed_step: usize,
        /// Forward steps that committed before the failure.
        forward_completed: usize,
        /// Compensate step index that failed.
        compensate_failed_at: usize,
    },
    /// Journal persistence failed.
    Journal(SagaJournalError),
    /// Resuming found no journal record for the saga.
    NotFound,
    /// Catalog generation changed mid-saga.
    CatalogVersionChanged {
        /// Catalog version pinned when the saga started.
        pinned: u32,
        /// Current catalog version observed mid-run.
        current: u32,
    },
}

/// Lifecycle events for metrics / logging.
#[derive(Debug, Clone, Copy, PartialEq, Eq, Structural)]
pub enum SagaEvent {
    /// All forward steps committed.
    Completed {
        /// Number of steps executed.
        steps: usize,
    },
    /// Forward failed and compensators ran successfully.
    Compensated {
        /// Forward steps that committed before failure.
        forward_steps: usize,
        /// Compensate steps that succeeded.
        compensated: usize,
    },
    /// Compensation failed — operator intervention required.
    Stuck {
        /// Forward step that failed.
        failed_step: usize,
        /// Compensate step that failed.
        compensate_failed_at: usize,
    },
}

/// Journal phase for resume / observability.
#[derive(Debug, Clone, Copy, PartialEq, Eq, Structural)]
pub enum SagaJournalPhase {
    /// Forward execution in progress.
    Running,
    /// All forward steps committed.
    Completed,
    /// Running compensators after a forward failure.
    Compensating,
    /// Compensators finished.
    Compensated,
    /// Compensation could not complete.
    Stuck,
}

/// Durable saga progress (journal value).
#[derive(Debug, Clone, PartialEq, Eq)]
pub struct SagaJournalRecord {
    /// Saga identifier.
    pub saga_id: Vec<u8>,
    /// Latest phase.
    pub phase: SagaJournalPhase,
    /// Forward steps committed so far.
    pub completed_steps: u32,
    /// Catalog version pinned at start, if any.
    pub catalog_version: Option<u32>,
    /// Forward step that failed before compensation (if any).
    pub failed_step: Option<u32>,
    /// Compensate step index that failed when the phase is `Stuck`.
    pub compensate_failed_at: Option<u32>,
}

/// A journal record as a mathematical value.
pub struct SagaRecordModel {
    pub saga_id: Seq<u8>,
    pub phase: SagaJournalPhase,
    pub completed_steps: u32,
    pub catalog_version: Option<u32>,
    pub failed_step: Option<u32>,
    pub compensate_failed_at: Option<u32>,
}

impl View for SagaJournalRecord {
    type V = SagaRecordModel;

    open spec fn view(&self) -> SagaRecordModel {
        SagaRecordModel {
            saga_id: self.saga_id@,
            phase: self.phase,
            completed_steps: self.completed_steps,
            catalog_version: self.catalog_version,
            failed_step: self.failed_step,
            compensate_failed_at: self.compensate_failed_at,
        }
    }
}

impl SagaJournalRecord {
    /// A copy of the record.
    pub fn duplicate(&self) -> (c: Self)
        ensures
            c@ == self@,
    {
        SagaJournalRecord {
            saga_id: bytes_to_vec(self.saga_id.as_slice()),
            phase: self.phase,
            completed_steps: self.completed_steps,
            catalog_version: self.catalog_version,
            failed_step: self.failed_step,
            compensate_failed_at: self.compensate_failed_at,
        }
    }
}

/// A record as first written for `id`: running, nothing committed.
pub open spec fn fresh_record(id: Seq<u8>) -> SagaRecordModel {
    SagaRecordModel {
        saga_id: id,
        phase: SagaJournalPhase::Running,
        completed_steps: 0,
        catalog_version: None,
        failed_step: None,
        compensate_failed_at: None,
    }
}

/// `i` is the first position of a record for `id`.
pub open spec fn first_pos(recs: Seq<SagaRecordModel>, id: Seq<u8>, i: int) -> bool {
    0 <= i < recs.len() && recs[i].saga_id == id && forall|j: int| 0 <= j < i ==> recs[j].saga_id != id
}

/// The record kept for `id`, if any.
pub open spec fn record_of(recs: Seq<SagaRecordModel>, id: Seq<u8>) -> Option<SagaRecordModel> {
    if exists|i: int| first_pos(recs, id, i) {
        Some(recs[choose|i: int| first_pos(recs, id, i)])
    } else {
        None
    }
}

/// Records after updating the one for `id` with `f` (a fresh record is added
/// last when there is none).
pub open spec fn journal_upsert(
    recs: Seq<SagaRecordModel>,
    id: Seq<u8>,
    f: spec_fn(SagaRecordModel) -> SagaRecordModel,
) -> Seq<SagaRecordModel> {
    if exists|i: int| first_pos(recs, id, i) {
        let i = choose|i: int| first_pos(recs, id, i);
        recs.update(i, f(recs[i]))
    } else {
        recs.push(f(fresh_record(id)))
    }
}

pub open spec fn records_model(recs: Seq<SagaJournalRecord>) -> Seq<SagaRecordModel> {
    recs.map_values(|r: SagaJournalRecord| r@)
}

/// In-memory saga journal.
pub struct InMemorySagaJournal {
    records: Vec<SagaJournalRecord>,
}

impl InMemorySagaJournal {
    /// Records in the order their sagas were first journaled.
    pub closed spec fn model(&self) -> Seq<SagaRecordModel> {
        records_model(self.records@)
    }

    /// Empty journal.
    pub fn new() -> (j: Self)
        ensures
            j.model() == Seq::<SagaRecordModel>::empty(),
    {
        let j = InMemorySagaJournal { records: Vec::new() };
        assert(records_model(j.records@) =~= Seq::<SagaRecordModel>::empty());
        j
    }

    /// Snapshot persisted records.
    pub fn records(&self) -> (v: Vec<SagaJournalRecord>)
        ensures
            records_model(v@) == self.model(),
    {
        let mut v: Vec<SagaJournalRecord> = Vec::new();
        let mut i: usize = 0;
        while i < self.records.len()
            invariant
                0 <= i <= self.records@.len(),
                v@.len() == i,
                forall|k: int| 0 <= k < i ==> (#[trigger] v@[k])@ == self.records@[k]@,
            decreases self.records@.len() - i,
        {
            let r = self.records[i].duplicate();
            v.push(r);
            i = i + 1;
        }
        assert(records_model(v@) =~= records_model(self.records@));
        v
    }

    fn position(&self, id: &[u8]) -> (r: Option<usize>)
        ensures
            r matches Some(i) ==> first_pos(self.model(), id@, i as int),
            r is None ==> !exists|i: int| first_pos(self.model(), id@, i),
    {
        let mut i: usize = 0;
        while i < self.records.len()
            invariant
                0 <= i <= self.records@.len(),
                forall|j: int| 0 <= j < i ==> self.model()[j].saga_id != id@,
            decreases self.records@.len() - i,
        {
            if bytes_eq(self.records[i].saga_id.as_slice(), id) {
                return Some(i);
            }
            i = i + 1;
        }
        None
    }

    /// The record for `id` (a fresh one when absent) and where it goes.
    fn take_record(&self, id: &[u8]) -> (r: (Option<usize>, SagaJournalRecord))
        ensures
            match r.0 {
                Some(i) => first_pos(self.model(), id@, i as int) && r.1@ == self.model()[i as int],
                None => !(exists|i: int| first_pos(self.model(), id@, i)) && r.1@ == fresh_record(id@),
            },
    {
        match self.position(id) {
            Some(i) => (Some(i), self.records[i].duplicate()),
            None => (
                None,
                SagaJournalRecord {
                    saga_id: bytes_to_vec(id),
                    phase: SagaJournalPhase::Running,
                    completed_steps: 0,
                    catalog_version: None,
                    failed_step: None,
                    compensate_failed_at: None,
                },
            ),
        }
    }

    fn put_record(&mut self, at: Option<usize>, rec: SagaJournalRecord)
        requires
            at matches Some(i) ==> i < old(self).model().len(),
        ensures
            final(self).model() == match at {
                Some(i) => old(self).model().update(i as int, rec@),
                None => old(self).model().push(rec@),
            },
    {
        let ghost m = self.model();
        match at {
            Some(i) => {
                self.records.set(i, rec);
                assert(records_model(self.records@) =~= m.update(i as int, rec@));
            },
            None => {
                self.records.push(rec);
                assert(records_model(self.records@) =~= m.push(rec@));
            },
        }
    }

    /// Persist saga start: running, nothing committed, catalog pinned.
    pub fn on_started(&mut self, saga_id: &[u8], steps: usize, catalog_version: Option<u32>) -> (r: Result<(), SagaJournalError>)
        ensures
            r is Ok,
            final(self).model() == journal_upsert(old(self).model(), saga_id@, |x: SagaRecordModel| SagaRecordModel {
                phase: SagaJournalPhase::Running,
                completed_steps: 0,
                catalog_version,
                failed_step: None,
                compensate_failed_at: None,
                ..x
            }),
    {
        let (at, mut rec) = self.take_record(saga_id);
        rec.phase = SagaJournalPhase::Running;
        rec.completed_steps = 0;
        rec.catalog_version = catalog_version;
        rec.failed_step = None;
        rec.compensate_failed_at = None;
        self.put_record(at, rec);
        Ok(())
    }

    /// Persist a committed forward step: `step + 1` steps are now committed.
    pub fn on_step_committed(&mut self, saga_id: &[u8], step: usize) -> (r: Result<(), SagaJournalError>)
        requires
            step < u32::MAX,
        ensures
            r is Ok,
            final(self).model() == journal_upsert(old(self).model(), saga_id@, |x: SagaRecordModel| SagaRecordModel {
                completed_steps: (step + 1) as u32,
                ..x
            }),
    {
        let (at, mut rec) = self.take_record(saga_id);
        rec.completed_steps = (step as u32) + 1;
        self.put_record(at, rec);
        Ok(())
    }

    /// Persist saga completion.
    pub fn on_completed(&mut self, saga_id: &[u8]) -> (r: Result<(), SagaJournalError>)
        ensures
            r is Ok,
            final(self).model() == journal_upsert(old(self).model(), saga_id@, |x: SagaRecordModel| SagaRecordModel {
                phase: SagaJournalPhase::Completed,
                ..x
            }),
    {
        let (at, mut rec) = self.take_record(saga_id);
        rec.phase = SagaJournalPhase::Completed;
        self.put_record(at, rec);
        Ok(())
    }

    /// Persist compensation start after the forward step `failed_step` failed.
    pub fn on_compensation_started(&mut self, saga_id: &[u8], failed_step: usize) -> (r: Result<(), SagaJournalError>)
        requires
            failed_step <= u32::MAX,
        ensures
            r is Ok,
            final(self).model() == journal_upsert(old(self).model(), saga_id@, |x: SagaRecordModel| SagaRecordModel {
                phase: SagaJournalPhase::Compensating,
                failed_step: Some(failed_step as u32),
                ..x
            }),
    {
        let (at, mut rec) = self.take_record(saga_id);
        rec.phase = SagaJournalPhase::Compensating;
        rec.failed_step = Some(failed_step as u32);
        self.put_record(at, rec);
        Ok(())
    }

    /// Persist successful compensation.
    pub fn on_compensated(&mut self, saga_id: &[u8], compensated_steps: usize) -> (r: Result<(), SagaJournalError>)
        ensures
            r is Ok,
            final(self).model() == journal_upsert(old(self).model(), saga_id@, |x: SagaRecordModel| SagaRecordModel {
                phase: SagaJournalPhase::Compensated,
                compensate_failed_at: None,
                ..x
            }),
    {
        let (at, mut rec) = self.take_record(saga_id);
        rec.phase = SagaJournalPhase::Compensated;
        rec.compensate_failed_at = None;
        self.put_record(at, rec);
        Ok(())
    }

    /// Persist a stuck saga (compensation failure).
    pub fn on_stuck(&mut self, saga_id: &[u8], failed_step: usize, compensate_failed_at: usize) -> (r: Result<(), SagaJournalError>)
        requires
            failed_step <= u32::MAX,
            compensate_failed_at <= u32::MAX,
        ensures
            r is Ok,
            final(self).model() == journal_upsert(old(self).model(), saga_id@, |x: SagaRecordModel| SagaRecordModel {
                phase: SagaJournalPhase::Stuck,
                failed_step: Some(failed_step as u32),
                compensate_failed_at: Some(compensate_failed_at as u32),
                ..x
            }),
    {
        let (at, mut rec) = self.take_record(saga_id);
        rec.phase = SagaJournalPhase::Stuck;
        rec.failed_step = Some(failed_step as u32);
        rec.compensate_failed_at = Some(compensate_failed_at as u32);
        self.put_record(at, rec);
        Ok(())
    }

    /// The latest journal record for `saga_id`, if any.
    pub fn load(&self, saga_id: &[u8]) -> (r: Result<Option<SagaJournalRecord>, SagaJournalError>)
        ensures
            r matches Ok(o) && match record_of(self.model(), saga_id@) {
                Some(m) => o matches Some(x) && x@ == m,
                None => o is None,
            },
    {
        match self.position(saga_id) {
            Some(i) => {
                proof {
                    let m = self.model();
                    let c = choose|k: int| first_pos(m, saga_id@, k);
                    assert(first_pos(m, saga_id@, c));
                    if c < i {
                        assert(m[c].saga_id != saga_id@);
                    }
                    if c > i {
                        assert(m[i as int].saga_id != saga_id@);
                    }
                }
                Ok(Some(self.records[i].duplicate()))
            },
            None => Ok(None),
        }
    }
}

// ---------------------------------------------------------------------------
// Coordinator
// ---------------------------------------------------------------------------

/// How a saga ended.
#[derive(Debug, Clone, Copy, PartialEq, Eq, Structural)]
pub enum SagaFinish {
    /// Every forward step committed.
    Completed,
    /// Forward step `failed_step` failed and `compensated_steps` compensators ran.
    Compensated { failed_step: usize, compensated_steps: usize },
    /// The compensator of step `compensate_failed_at` failed.
    Stuck { failed_step: usize, compensate_failed_at: usize },
}

/// Where a saga coordinator stands.
#[derive(Debug, Clone, Copy, PartialEq, Eq, Structural)]
pub enum SagaState {
    /// Forward steps before `next` committed; `next` runs next.
    Forward { next: usize },
    /// Forward step `failed_step` failed; the compensators of steps
    /// `0..remaining` are still to run, last first; `compensated` have run.
    Compensating { failed_step: usize, remaining: usize, compensated: usize },
    /// Finished.
    Done(SagaFinish),
}

/// The next shard write a coordinator makes.
#[derive(Debug, Clone, Copy, PartialEq, Eq, Structural)]
pub enum SagaCall {
    /// Propose the forward command of this step.
    Forward(usize),
    /// Propose the compensate command of this step.
    Compensate(usize),
}

/// A journal write a transition asks for.
#[derive(Debug, Clone, Copy, PartialEq, Eq, Structural)]
pub enum SagaWrite {
    /// The saga started (`on_started`).
    Started,
    /// This forward step committed (`on_step_committed`).
    StepCommitted(usize),
    /// Every step committed (`on_completed`).
    Completed,
    /// Compensation starts after this forward step failed (`on_compensation_started`).
    CompensationStarted(usize),
    /// Compensation finished after this many compensators (`on_compensated`).
    Compensated(usize),
    /// A compensator failed (`on_stuck`).
    Stuck { failed_step: usize, compensate_failed_at: usize },
}

/// The write a coordinator in `s` makes next, if any (with `steps` steps).
pub open spec fn call_of(s: SagaState, steps: usize) -> Option<SagaCall> {
    match s {
        SagaState::Forward { next } => if next < steps { Some(SagaCall::Forward(next)) } else { None },
        SagaState::Compensating { remaining, .. } => if remaining > 0 {
            Some(SagaCall::Compensate((remaining - 1) as usize))
        } else {
            None
        },
        SagaState::Done(_) => None,
    }
}

/// State and journal write after the pending call succeeded (`ok`) or failed.
pub open spec fn after_call(s: SagaState, ok: bool) -> (SagaState, Option<SagaWrite>) {
    match s {
        SagaState::Forward { next } => if ok {
            (SagaState::Forward { next: (next + 1) as usize }, Some(SagaWrite::StepCommitted(next)))
        } else {
            (
                SagaState::Compensating { failed_step: next, remaining: next, compensated: 0 },
                Some(SagaWrite::CompensationStarted(next)),
            )
        },
        SagaState::Compensating { failed_step, remaining, compensated } => if ok {
            (
                SagaState::Compensating {
                    failed_step,
                    remaining: (remaining - 1) as usize,
                    compensated: (compensated + 1) as usize,
                },
                None,
            )
        } else {
            (
                SagaState::Done(SagaFinish::Stuck { failed_step, compensate_failed_at: (remaining - 1) as usize }),
                Some(SagaWrite::Stuck { failed_step, compensate_failed_at: (remaining - 1) as usize }),
            )
        },
        SagaState::Done(f) => (s, None),
    }
}

/// How a coordinator with nothing left to call finishes, and its last write.
pub open spec fn settle(s: SagaState) -> (SagaState, Option<SagaWrite>) {
    match s {
        SagaState::Forward { .. } => (SagaState::Done(SagaFinish::Completed), Some(SagaWrite::Completed)),
        SagaState::Compensating { failed_step, compensated, .. } => (
            SagaState::Done(SagaFinish::Compensated { failed_step, compensated_steps: compensated }),
            Some(SagaWrite::Compensated(compensated)),
        ),
        SagaState::Done(_) => (s, None),
    }
}

/// Counters fit: step indices and counts stay within `usize`.
pub open spec fn state_ok(s: SagaState, steps: usize) -> bool {
    match s {
        SagaState::Forward { .. } => true,
        SagaState::Compensating { failed_step, remaining, compensated } => remaining <= steps && compensated
            + remaining <= usize::MAX,
        SagaState::Done(_) => true,
    }
}

/// The write the coordinator makes next.
pub fn saga_next_call(s: SagaState, steps: usize) -> (c: Option<SagaCall>)
    ensures
        c == call_of(s, steps),
{
    match s {
        SagaState::Forward { next } => if next < steps { Some(SagaCall::Forward(next)) } else { None },
        SagaState::Compensating { remaining, .. } => if remaining > 0 {
            Some(SagaCall::Compensate(remaining - 1))
        } else {
            None
        },
        SagaState::Done(_) => None,
    }
}

/// Record the outcome of the pending call.
pub fn saga_after_call(s: SagaState, steps: usize, ok: bool) -> (r: (SagaState, Option<SagaWrite>))
    requires
        call_of(s, steps) is Some,
        state_ok(s, steps),
    ensures
        r == after_call(s, ok),
        state_ok(r.0, steps),
{
    match s {
        SagaState::Forward { next } => if ok {
            (SagaState::Forward { next: next + 1 }, Some(SagaWrite::StepCommitted(next)))
        } else {
            (
                SagaState::Compensating { failed_step: next, remaining: next, compensated: 0 },
                Some(SagaWrite::CompensationStarted(next)),
            )
        },
        SagaState::Compensating { failed_step, remaining, compensated } => if ok {
            (SagaState::Compensating { failed_step, remaining: remaining - 1, compensated: compensated + 1 }, None)
        } else {
            (
                SagaState::Done(SagaFinish::Stuck { failed_step, compensate_failed_at: remaining - 1 }),
                Some(SagaWrite::Stuck { failed_step, compensate_failed_at: remaining - 1 }),
            )
        },
        SagaState::Done(_) => (s, None),
    }
}

/// Finish a coordinator that has nothing left to call.
pub fn saga_settle(s: SagaState, steps: usize) -> (r: (SagaState, Option<SagaWrite>))
    requires
        call_of(s, steps) is None,
    ensures
        r == settle(s),
{
    match s {
        SagaState::Forward { .. } => (SagaState::Done(SagaFinish::Completed), Some(SagaWrite::Completed)),
        SagaState::Compensating { failed_step, compensated, .. } => (
            SagaState::Done(SagaFinish::Compensated { failed_step, compensated_steps: compensated }),
            Some(SagaWrite::Compensated(compensated)),
        ),
        SagaState::Done(_) => (s, None),
    }
}

/// The lifecycle event of a finished saga of `steps` steps.
pub fn saga_finish_event(f: SagaFinish, steps: usize) -> (e: SagaEvent)
    ensures
        e == match f {
            SagaFinish::Completed => SagaEvent::Completed { steps },
            SagaFinish::Compensated { failed_step, compensated_steps } => SagaEvent::Compensated {
                forward_steps: failed_step,
                compensated: compensated_steps,
            },
            SagaFinish::Stuck { failed_step, compensate_failed_at } => SagaEvent::Stuck {
                failed_step,
                compensate_failed_at,
            },
        },
{
    match f {
        SagaFinish::Completed => SagaEvent::Completed { steps },
        SagaFinish::Compensated { failed_step, compensated_steps } => SagaEvent::Compensated {
            forward_steps: failed_step,
            compensated: compensated_steps,
        },
        SagaFinish::Stuck { failed_step, compensate_failed_at } => SagaEvent::Stuck { failed_step, compensate_failed_at },
    }
}

/// A forward step may run only while the catalog generation pinned at the
/// start (if any) is still the live one (if known).
pub fn check_catalog_version(pinned: Option<u32>, live: Option<u32>) -> (r: Result<(), SagaError>)
    ensures
        match (pinned, live) {
            (Some(p), Some(c)) => if p == c {
                r is Ok
            } else {
                r == Err::<(), SagaError>(SagaError::CatalogVersionChanged { pinned: p, current: c })
            },
            _ => r is Ok,
        },
{
    match (pinned, live) {
        (Some(p), Some(c)) => {
            if c != p {
                return Err(SagaError::CatalogVersionChanged { pinned: p, current: c });
            }
            Ok(())
        },
        _ => Ok(()),
    }
}

/// How a fresh run starts.
#[derive(Debug, Clone, Copy, PartialEq, Eq, Structural)]
pub enum SagaRunStart {
    /// Nothing to do: the plan is empty or the journal says the saga completed.
    AlreadyDone,
    /// Journal the start, then run forward from step 0.
    Run(SagaState),
}

/// Start of a run: an empty plan or an already completed saga makes no writes
/// at all; otherwise the forward pass starts at step 0.
pub fn saga_run_start(steps: usize, journaled_phase: Option<SagaJournalPhase>) -> (r: SagaRunStart)
    ensures
        (steps == 0 || journaled_phase == Some(SagaJournalPhase::Completed)) ==> r == SagaRunStart::AlreadyDone,
        !(steps == 0 || journaled_phase == Some(SagaJournalPhase::Completed)) ==> r == SagaRunStart::Run(
            SagaState::Forward { next: 0 },
        ),
{
    if steps == 0 {
        return SagaRunStart::AlreadyDone;
    }
    match journaled_phase {
        Some(SagaJournalPhase::Completed) => SagaRunStart::AlreadyDone,
        _ => SagaRunStart::Run(SagaState::Forward { next: 0 }),
    }
}

/// How a resumed saga continues.
#[derive(Debug, Clone, Copy, PartialEq, Eq, Structural)]
pub enum SagaResume {
    /// The journal says the saga completed.
    Completed,
    /// The journal says compensation finished after this forward step failed.
    Compensated { failed_step: usize },
    /// Continue from this state, first journaling that compensation (re)starts
    /// when `restart_compensation` is set.
    Continue { state: SagaState, restart_compensation: bool },
}

/// A journal record a resume can act on without indexing past the plan.
pub open spec fn resumable(record: SagaRecordModel, steps: usize) -> bool {
    match record.phase {
        SagaJournalPhase::Compensating => match record.failed_step {
            Some(f) => f <= steps,
            None => true,
        },
        SagaJournalPhase::Stuck => match (record.failed_step, record.compensate_failed_at) {
            (Some(f), Some(c)) => f == 0 || c < steps,
            _ => true,
        },
        _ => true,
    }
}

/// Decide how to continue a saga from its journal record.
pub fn saga_resume(steps: usize, record: Option<&SagaJournalRecord>) -> (r: Result<SagaResume, SagaError>)
    requires
        record matches Some(rec) ==> resumable(rec@, steps),
    ensures
        match record {
            None => r == Err::<SagaResume, SagaError>(SagaError::NotFound),
            Some(rec) => match rec.phase {
                SagaJournalPhase::Completed => r == Ok::<SagaResume, SagaError>(SagaResume::Completed),
                SagaJournalPhase::Compensated => r == Ok::<SagaResume, SagaError>(SagaResume::Compensated {
                    failed_step: match rec.failed_step {
                        Some(f) => f as usize,
                        None => 0,
                    },
                }),
                SagaJournalPhase::Running => r == Ok::<SagaResume, SagaError>(SagaResume::Continue {
                    state: SagaState::Forward { next: rec.completed_steps as usize },
                    restart_compensation: false,
                }),
                SagaJournalPhase::Compensating => match rec.failed_step {
                    None => r == Err::<SagaResume, SagaError>(SagaError::NotFound),
                    Some(f) => r == Ok::<SagaResume, SagaError>(SagaResume::Continue {
                        state: SagaState::Compensating { failed_step: f as usize, remaining: f as usize, compensated: 0 },
                        restart_compensation: true,
                    }),
                },
                SagaJournalPhase::Stuck => match (rec.failed_step, rec.compensate_failed_at) {
                    (Some(f), Some(c)) => r == Ok::<SagaResume, SagaError>(SagaResume::Continue {
                        state: SagaState::Compensating {
                            failed_step: f as usize,
                            remaining: if f == 0 { 0 } else { (c + 1) as usize },
                            compensated: 0,
                        },
                        restart_compensation: false,
                    }),
                    _ => r == Err::<SagaResume, SagaError>(SagaError::NotFound),
                },
            },
        },
{
    let rec = match record {
        Some(rec) => rec,
        None => {
            return Err(SagaError::NotFound);
        },
    };
    match rec.phase {
        SagaJournalPhase::Completed => Ok(SagaResume::Completed),
        SagaJournalPhase::Compensated => Ok(SagaResume::Compensated {
            failed_step: match rec.failed_step {
                Some(f) => f as usize,
                None => 0,
            },
        }),
        SagaJournalPhase::Running => Ok(SagaResume::Continue {
            state: SagaState::Forward { next: rec.completed_steps as usize },
            restart_compensation: false,
        }),
        SagaJournalPhase::Compensating => match rec.failed_step {
            None => Err(SagaError::NotFound),
            Some(f) => Ok(SagaResume::Continue {
                state: SagaState::Compensating { failed_step: f as usize, remaining: f as usize, compensated: 0 },
                restart_compensation: true,
            }),
        },
        SagaJournalPhase::Stuck => match (rec.failed_step, rec.compensate_failed_at) {
            (Some(f), Some(c)) => Ok(SagaResume::Continue {
                state: SagaState::Compensating {
                    failed_step: f as usize,
                    remaining: if f == 0 { 0 } else { c as usize + 1 },
                    compensated: 0,
                },
                restart_compensation: false,
            }),
            _ => Err(SagaError::NotFound),
        },
    }
}

/// Catalog generation a resumed run pins: the one the journal recorded.
pub fn run_opts_from_record(record: &SagaJournalRecord) -> (pinned: Option<u32>)
    ensures
        pinned == record.catalog_version,
{
    record.catalog_version
}

/// `k` compensators succeed in a row, starting from `s`.
pub open spec fn compensate_ok_times(s: SagaState, k: nat) -> SagaState
    decreases k,
{
    if k == 0 {
        s
    } else {
        after_call(compensate_ok_times(s, (k - 1) as nat), true).0
    }
}

/// `k` forward steps succeed in a row, starting from `s`.
pub open spec fn forward_ok_times(s: SagaState, k: nat) -> SagaState
    decreases k,
{
    if k == 0 {
        s
    } else {
        after_call(forward_ok_times(s, (k - 1) as nat), true).0
    }
}

/// Forward steps run in plan order: after `k` successes from step 0 the
/// coordinator proposes step `k` next, and after all of them it completes.
pub proof fn law_forward_runs_in_order(steps: usize, k: nat)
    requires
        k <= steps,
    ensures
        forward_ok_times(SagaState::Forward { next: 0 }, k) == (SagaState::Forward { next: k as usize }),
        k < steps ==> call_of(forward_ok_times(SagaState::Forward { next: 0 }, k), steps) == Some(SagaCall::Forward(k as usize)),
        k == steps ==> settle(forward_ok_times(SagaState::Forward { next: 0 }, k)).0 == SagaState::Done(SagaFinish::Completed),
    decreases k,
{
    if k > 0 {
        law_forward_runs_in_order(steps, (k - 1) as nat);
    }
}

/// A forward failure at step `f` compensates exactly the committed steps
/// `0..f`, last first: after `k` successful compensators the next one is step
/// `f - 1 - k`, and once all `f` ran the saga ends compensated with count `f`.
pub proof fn law_compensation_reverses_committed_steps(steps: usize, f: usize, k: nat)
    requires
        f < steps,
        k <= f,
    ensures
        after_call(SagaState::Forward { next: f }, false) == (
            SagaState::Compensating { failed_step: f, remaining: f, compensated: 0 },
            Some(SagaWrite::CompensationStarted(f)),
        ),
        compensate_ok_times(SagaState::Compensating { failed_step: f, remaining: f, compensated: 0 }, k) == (
        SagaState::Compensating { failed_step: f, remaining: (f - k) as usize, compensated: k as usize }),
        k < f ==> call_of(
            compensate_ok_times(SagaState::Compensating { failed_step: f, remaining: f, compensated: 0 }, k),
            steps,
        ) == Some(SagaCall::Compensate((f - 1 - k) as usize)),
        k == f ==> settle(compensate_ok_times(SagaState::Compensating { failed_step: f, remaining: f, compensated: 0 }, k)).0
            == SagaState::Done(SagaFinish::Compensated { failed_step: f, compensated_steps: f }),
    decreases k,
{
    if k > 0 {
        law_compensation_reverses_committed_steps(steps, f, (k - 1) as nat);
    }
}

/// A failing compensator stops the saga as stuck at that step; nothing runs after it.
pub proof fn law_failed_compensator_is_stuck(steps: usize, f: usize, remaining: usize, compensated: usize)
    requires
        0 < remaining <= steps,
    ensures
        after_call(SagaState::Compensating { failed_step: f, remaining, compensated }, false).0 == SagaState::Done(
            SagaFinish::Stuck { failed_step: f, compensate_failed_at: (remaining - 1) as usize },
        ),
        call_of(after_call(SagaState::Compensating { failed_step: f, remaining, compensated }, false).0, steps) is None,
{
}

} // verus!
