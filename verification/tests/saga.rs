use crafty::saga::{
    check_catalog_version, run_opts_from_record, saga_after_call, saga_finish_event, saga_next_call, saga_resume,
    saga_run_start, saga_settle, InMemorySagaJournal, SagaCall, SagaError, SagaEvent, SagaFinish, SagaJournalPhase,
    SagaResume, SagaRunStart, SagaState, SagaWrite,
};

/// Drive a coordinator: `forward_ok` / `compensate_ok` answer each call in turn.
fn drive(steps: usize, mut state: SagaState, forward_ok: &[bool], compensate_ok: &[bool]) -> (Vec<SagaCall>, Vec<SagaWrite>, SagaFinish) {
    let mut calls = Vec::new();
    let mut writes = Vec::new();
    let (mut f, mut c) = (0, 0);
    loop {
        match saga_next_call(state, steps) {
            Some(call) => {
                calls.push(call);
                let ok = match call {
                    SagaCall::Forward(_) => {
                        f += 1;
                        forward_ok[f - 1]
                    }
                    SagaCall::Compensate(_) => {
                        c += 1;
                        compensate_ok[c - 1]
                    }
                };
                let (next, w) = saga_after_call(state, steps, ok);
                writes.extend(w);
                state = next;
            }
            None => {
                let (next, w) = saga_settle(state, steps);
                writes.extend(w);
                match next {
                    SagaState::Done(finish) => return (calls, writes, finish),
                    _ => unreachable!(),
                }
            }
        }
    }
}

#[test]
fn saga_completes_all_forward_steps() {
    let (calls, writes, finish) = drive(2, SagaState::Forward { next: 0 }, &[true, true], &[]);
    assert_eq!(calls, vec![SagaCall::Forward(0), SagaCall::Forward(1)]);
    assert_eq!(writes, vec![SagaWrite::StepCommitted(0), SagaWrite::StepCommitted(1), SagaWrite::Completed]);
    assert_eq!(finish, SagaFinish::Completed);
    assert_eq!(saga_finish_event(finish, 2), SagaEvent::Completed { steps: 2 });
}

#[test]
fn saga_compensates_after_second_forward_fails() {
    let (calls, writes, finish) = drive(3, SagaState::Forward { next: 0 }, &[true, false], &[true]);
    assert_eq!(calls, vec![SagaCall::Forward(0), SagaCall::Forward(1), SagaCall::Compensate(0)]);
    assert_eq!(
        writes,
        vec![SagaWrite::StepCommitted(0), SagaWrite::CompensationStarted(1), SagaWrite::Compensated(1)]
    );
    assert_eq!(finish, SagaFinish::Compensated { failed_step: 1, compensated_steps: 1 });
}

#[test]
fn compensators_run_in_reverse() {
    let (calls, _, finish) = drive(4, SagaState::Forward { next: 0 }, &[true, true, true, false], &[true, true, true]);
    assert_eq!(
        calls[4..].to_vec(),
        vec![SagaCall::Compensate(2), SagaCall::Compensate(1), SagaCall::Compensate(0)]
    );
    assert_eq!(finish, SagaFinish::Compensated { failed_step: 3, compensated_steps: 3 });
}

#[test]
fn saga_stuck_when_compensation_fails() {
    let (_, writes, finish) = drive(3, SagaState::Forward { next: 0 }, &[true, true, false], &[true, false]);
    assert_eq!(finish, SagaFinish::Stuck { failed_step: 2, compensate_failed_at: 0 });
    assert_eq!(writes.last(), Some(&SagaWrite::Stuck { failed_step: 2, compensate_failed_at: 0 }));
    assert_eq!(saga_finish_event(finish, 3), SagaEvent::Stuck { failed_step: 2, compensate_failed_at: 0 });
}

#[test]
fn first_step_failure_compensates_nothing() {
    let (calls, writes, finish) = drive(2, SagaState::Forward { next: 0 }, &[false], &[]);
    assert_eq!(calls, vec![SagaCall::Forward(0)]);
    assert_eq!(writes, vec![SagaWrite::CompensationStarted(0), SagaWrite::Compensated(0)]);
    assert_eq!(finish, SagaFinish::Compensated { failed_step: 0, compensated_steps: 0 });
}

#[test]
fn saga_is_idempotent_when_journal_completed() {
    assert_eq!(saga_run_start(1, Some(SagaJournalPhase::Completed)), SagaRunStart::AlreadyDone);
    assert_eq!(saga_run_start(0, None), SagaRunStart::AlreadyDone);
    assert_eq!(saga_run_start(2, Some(SagaJournalPhase::Running)), SagaRunStart::Run(SagaState::Forward { next: 0 }));
}

#[test]
fn resume_saga_continues_forward_after_partial_journal() {
    let mut journal = InMemorySagaJournal::new();
    journal.on_started(b"seed", 2, None).unwrap();
    journal.on_step_committed(b"seed", 0).unwrap();
    let rec = journal.load(b"seed").unwrap().unwrap();
    assert_eq!(rec.completed_steps, 1);
    let SagaResume::Continue { state, restart_compensation } = saga_resume(2, Some(&rec)).unwrap() else {
        panic!("expected continue");
    };
    assert!(!restart_compensation);
    let (calls, _, finish) = drive(2, state, &[true], &[]);
    assert_eq!(calls, vec![SagaCall::Forward(1)]);
    assert_eq!(finish, SagaFinish::Completed);
}

#[test]
fn resume_saga_retries_stuck_compensation() {
    let mut journal = InMemorySagaJournal::new();
    journal.on_started(b"seed", 2, None).unwrap();
    journal.on_step_committed(b"seed", 0).unwrap();
    journal.on_compensation_started(b"seed", 1).unwrap();
    journal.on_stuck(b"seed", 1, 0).unwrap();
    let rec = journal.load(b"seed").unwrap().unwrap();
    assert_eq!(rec.phase, SagaJournalPhase::Stuck);
    let SagaResume::Continue { state, restart_compensation } = saga_resume(2, Some(&rec)).unwrap() else {
        panic!("expected continue");
    };
    assert!(!restart_compensation);
    let (calls, _, finish) = drive(2, state, &[], &[true]);
    assert_eq!(calls, vec![SagaCall::Compensate(0)]);
    assert_eq!(finish, SagaFinish::Compensated { failed_step: 1, compensated_steps: 1 });
    journal.on_compensated(b"seed", 1).unwrap();
    assert!(journal.records().iter().any(|r| r.phase == SagaJournalPhase::Compensated));
}

#[test]
fn resume_without_record_is_not_found() {
    assert_eq!(saga_resume(2, None), Err(SagaError::NotFound));
    let mut journal = InMemorySagaJournal::new();
    journal.on_compensation_started(b"x", 0).unwrap();
    let mut rec = journal.load(b"x").unwrap().unwrap();
    rec.failed_step = None;
    assert_eq!(saga_resume(2, Some(&rec)), Err(SagaError::NotFound));
}

#[test]
fn saga_rejects_catalog_version_change() {
    assert_eq!(check_catalog_version(Some(1), Some(2)), Err(SagaError::CatalogVersionChanged { pinned: 1, current: 2 }));
    assert_eq!(check_catalog_version(Some(1), Some(1)), Ok(()));
    assert_eq!(check_catalog_version(None, Some(3)), Ok(()));
    assert_eq!(check_catalog_version(Some(3), None), Ok(()));
}

#[test]
fn journal_upserts_one_record_per_saga() {
    let mut journal = InMemorySagaJournal::new();
    journal.on_started(b"a", 3, Some(7)).unwrap();
    journal.on_started(b"b", 1, None).unwrap();
    journal.on_step_committed(b"a", 2).unwrap();
    journal.on_completed(b"a").unwrap();
    let recs = journal.records();
    assert_eq!(recs.len(), 2);
    assert_eq!(recs[0].saga_id, b"a".to_vec());
    assert_eq!(recs[0].completed_steps, 3);
    assert_eq!(recs[0].phase, SagaJournalPhase::Completed);
    assert_eq!(run_opts_from_record(&recs[0]), Some(7));
    assert!(journal.load(b"zzz").unwrap().is_none());
}
