use crafty::two_phase::{
    two_phase_after_call, two_phase_next_call, two_phase_resume_start, two_phase_settle, CallOutcome,
    InMemoryTwoPhaseJournal, TwoPhaseCall, TwoPhaseEvent, TwoPhaseFinish, TwoPhaseState, TwoPhaseWrite,
};

struct Run {
    calls: Vec<TwoPhaseCall>,
    writes: Vec<TwoPhaseWrite>,
    events: Vec<TwoPhaseEvent>,
    responses: usize,
    finish: TwoPhaseFinish,
}

fn drive(n: usize, probe: bool, mut state: TwoPhaseState, answer: impl Fn(TwoPhaseCall) -> CallOutcome) -> Run {
    let mut run = Run { calls: vec![], writes: vec![], events: vec![], responses: 0, finish: TwoPhaseFinish::Committed };
    loop {
        let (next, fx) = match two_phase_next_call(state, n, probe) {
            Some(call) => {
                run.calls.push(call);
                two_phase_after_call(state, n, probe, answer(call))
            }
            None => two_phase_settle(state, n, probe),
        };
        run.writes.extend(fx.first);
        run.writes.extend(fx.second);
        run.events.extend(fx.event);
        if fx.keep_response {
            run.responses += 1;
        }
        state = next;
        if let TwoPhaseState::Done(f) = state {
            run.finish = f;
            return run;
        }
    }
}

#[test]
fn prepare_all_then_commit_all() {
    let run = drive(2, false, TwoPhaseState::Preparing { next: 0 }, |_| CallOutcome::Succeeded);
    assert_eq!(
        run.calls,
        vec![TwoPhaseCall::Prepare(0), TwoPhaseCall::Prepare(1), TwoPhaseCall::Commit(0), TwoPhaseCall::Commit(1)]
    );
    assert_eq!(run.events, vec![TwoPhaseEvent::Prepared { steps: 2 }]);
    assert_eq!(run.responses, 2);
    assert_eq!(run.writes.last(), Some(&TwoPhaseWrite::Completed));
    assert_eq!(run.finish, TwoPhaseFinish::Committed);
}

#[test]
fn failed_prepare_aborts_earlier_steps_in_reverse() {
    let run = drive(3, false, TwoPhaseState::Preparing { next: 0 }, |c| match c {
        TwoPhaseCall::Prepare(2) => CallOutcome::Failed,
        _ => CallOutcome::Succeeded,
    });
    assert_eq!(
        run.calls,
        vec![
            TwoPhaseCall::Prepare(0),
            TwoPhaseCall::Prepare(1),
            TwoPhaseCall::Prepare(2),
            TwoPhaseCall::Abort(1),
            TwoPhaseCall::Abort(0)
        ]
    );
    assert!(run.events.is_empty());
    assert_eq!(run.finish, TwoPhaseFinish::PrepareFailed { step: 2 });
}

#[test]
fn failed_abort_reports_stuck_but_aborts_the_rest() {
    let run = drive(3, false, TwoPhaseState::Preparing { next: 0 }, |c| match c {
        TwoPhaseCall::Prepare(2) | TwoPhaseCall::Abort(1) => CallOutcome::Failed,
        _ => CallOutcome::Succeeded,
    });
    assert_eq!(run.calls[3..].to_vec(), vec![TwoPhaseCall::Abort(1), TwoPhaseCall::Abort(0)]);
    assert_eq!(run.events, vec![TwoPhaseEvent::Stuck { prepared: 2, failed_step: 2 }]);
}

#[test]
fn commit_failure_is_stuck() {
    let run = drive(2, false, TwoPhaseState::Preparing { next: 0 }, |c| match c {
        TwoPhaseCall::Commit(1) => CallOutcome::Failed,
        _ => CallOutcome::Succeeded,
    });
    assert_eq!(run.finish, TwoPhaseFinish::CommitFailed { step: 1 });
    assert_eq!(run.events.last(), Some(&TwoPhaseEvent::Stuck { prepared: 2, failed_step: 1 }));
}

#[test]
fn resume_probes_commit_before_prepare() {
    // step 0 is already prepared on its shard, step 1 is not
    let prepared = std::cell::RefCell::new(std::collections::HashSet::from([0usize]));
    let (start, skipped) = two_phase_resume_start(2, None);
    assert_eq!(skipped, 0);
    let run = drive(2, true, start, |c| match c {
        TwoPhaseCall::Prepare(i) => {
            prepared.borrow_mut().insert(i);
            CallOutcome::Succeeded
        }
        TwoPhaseCall::Commit(i) => {
            if prepared.borrow().contains(&i) {
                CallOutcome::Succeeded
            } else {
                CallOutcome::NotPrepared
            }
        }
        TwoPhaseCall::Abort(_) => CallOutcome::Succeeded,
    });
    assert_eq!(
        run.calls,
        vec![TwoPhaseCall::Commit(0), TwoPhaseCall::Commit(1), TwoPhaseCall::Prepare(1), TwoPhaseCall::Commit(1)]
    );
    assert_eq!(skipped + run.responses, 2);
    assert_eq!(run.finish, TwoPhaseFinish::Committed);
}

#[test]
fn resume_skips_journal_committed_prefix() {
    let mut journal = InMemoryTwoPhaseJournal::new();
    journal.on_prepared(b"tx-resume", 0, 2).unwrap();
    journal.on_prepared(b"tx-resume", 1, 2).unwrap();
    journal.on_committed(b"tx-resume", 0, 2).unwrap();
    let rec = journal.load(b"tx-resume").unwrap().unwrap();
    assert_eq!((rec.prepared_steps, rec.committed_steps), (2, 1));
    let (start, skipped) = two_phase_resume_start(2, Some(&rec));
    assert_eq!(skipped, 1);
    let run = drive(2, false, start, |_| CallOutcome::Succeeded);
    assert_eq!(run.calls, vec![TwoPhaseCall::Commit(1)]);
    assert_eq!(skipped + run.responses, 2);
    assert_eq!(run.finish, TwoPhaseFinish::Committed);
    journal.on_completed(b"tx-resume").unwrap();
    let rec = journal.load(b"tx-resume").unwrap().unwrap();
    assert_eq!(rec.committed_steps, 2);
}

#[test]
fn journal_counters_never_go_back() {
    let mut journal = InMemoryTwoPhaseJournal::new();
    journal.on_prepared(b"t", 3, 4).unwrap();
    journal.on_prepared(b"t", 0, 4).unwrap();
    assert_eq!(journal.records()[0].prepared_steps, 4);
    assert_eq!(journal.records().len(), 1);
}

#[test]
fn missing_prepare_is_recognised_in_shard_errors() {
    assert!(crafty::two_phase::is_no_prepared("no prepared command for transaction key"));
    assert!(crafty::two_phase::is_no_prepared("shard 3: no prepared command for transaction key (tx 9)"));
    assert!(!crafty::two_phase::is_no_prepared("no prepared command"));
    assert!(!crafty::two_phase::is_no_prepared(""));
}
