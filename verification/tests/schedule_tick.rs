use crafty::job_queue::InMemoryJobQueue;
use crafty::queue::{QueueError, QueueReplicateOp};
use crafty::schedule::{RecurringJob, schedule_is_due};
use crafty::schedule_tick::{fire_schedule_at, tick_schedules_at};

const NOW: u64 = 1_700_000_000_000;

#[test]
fn recurring_job_enqueues_on_tick() {
    let mut queue = InMemoryJobQueue::new(30_000);
    let mut wire = RecurringJob::new("daily".into(), "* * * * * *".into(), b"tick".to_vec()).max_attempts(3).to_wire(0);
    wire.next_run_ms = NOW - 1;
    assert!(schedule_is_due(&wire, NOW));
    let (next, ops) = fire_schedule_at(&mut queue, &wire, NOW).unwrap();
    assert_eq!(next, NOW + 1_000);
    assert_eq!(ops.len(), 2);
    assert!(matches!(ops[0], QueueReplicateOp::Enqueue { max_attempts: 3, .. }));
    assert_eq!(ops[1], QueueReplicateOp::UpdateScheduleNextRun { name: "daily".into(), next_run_ms: NOW + 1_000 });
    assert!(queue.metrics_at(NOW).pending >= 1);
}

#[test]
fn replayed_tick_enqueues_nothing_twice() {
    let mut queue = InMemoryJobQueue::new(30_000);
    let wire = RecurringJob::new("hourly".into(), "0 * * * *".into(), b"x".to_vec()).to_wire(0);
    let (_, first) = fire_schedule_at(&mut queue, &wire, NOW).unwrap();
    let (_, again) = fire_schedule_at(&mut queue, &wire, NOW).unwrap();
    assert_eq!(first.len(), 2);
    assert_eq!(again.len(), 1);
    assert_eq!(queue.metrics_at(NOW).pending, 1);
}

#[test]
fn bad_cron_is_refused_before_enqueue() {
    let mut queue = InMemoryJobQueue::new(30_000);
    let wire = RecurringJob::new("broken".into(), "not a cron".into(), b"x".to_vec()).to_wire(0);
    assert!(matches!(fire_schedule_at(&mut queue, &wire, NOW), Err(QueueError::Codec(_))));
    assert_eq!(queue.metrics_at(NOW).pending, 0);
}

#[test]
fn tick_fires_only_due_schedules_and_moves_them_on() {
    let mut queue = InMemoryJobQueue::new(30_000);
    let mut due = RecurringJob::new("due".into(), "* * * * * *".into(), b"a".to_vec()).to_wire(0);
    due.next_run_ms = NOW;
    let mut later = RecurringJob::new("later".into(), "* * * * * *".into(), b"b".to_vec()).to_wire(0);
    later.next_run_ms = NOW + 5_000;
    let mut schedules = vec![due, later];
    let ops = tick_schedules_at(&mut queue, &mut schedules, NOW).unwrap();
    assert_eq!(ops.len(), 2);
    assert_eq!(schedules[0].next_run_ms, NOW + 1_000);
    assert_eq!(schedules[1].next_run_ms, NOW + 5_000);
    assert_eq!(queue.metrics_at(NOW).pending, 1);
}

#[test]
fn tick_stops_at_a_broken_schedule() {
    let mut queue = InMemoryJobQueue::new(30_000);
    let mut broken = RecurringJob::new("broken".into(), "not a cron".into(), b"x".to_vec()).to_wire(0);
    broken.next_run_ms = 0;
    let mut schedules = vec![broken];
    assert!(matches!(tick_schedules_at(&mut queue, &mut schedules, NOW), Err(QueueError::Codec(_))));
    assert_eq!(schedules[0].next_run_ms, 0);
}
