use crafty::queue::QueueError;
use crafty::schedule::{
    next_run_after, normalize_cron, parse_cron, recurring_dedup_key, schedule_is_due, tick_enqueue_options, RecurringJob,
};
use std::time::{SystemTime, UNIX_EPOCH};

fn now_ms() -> u64 {
    u64::try_from(SystemTime::now().duration_since(UNIX_EPOCH).unwrap_or_default().as_millis()).unwrap_or(u64::MAX)
}

#[test]
fn normalize_five_field_cron() {
    let schedule = parse_cron("0 9 * * *").unwrap();
    let next = next_run_after(&schedule, now_ms()).unwrap();
    assert!(next > now_ms());
}

#[test]
fn normalization_adds_seconds_and_collapses_whitespace() {
    assert_eq!(normalize_cron("0 9 * * *").unwrap(), "0 0 9 * * *");
    assert_eq!(normalize_cron("  */5\t* *  * * *\n").unwrap(), "*/5 * * * * *");
    match normalize_cron("* * *") {
        Err(QueueError::Codec(m)) => assert_eq!(m, "cron expression needs 5 or 6 fields, got 3"),
        other => panic!("unexpected {other:?}"),
    }
    match normalize_cron("") {
        Err(QueueError::Codec(m)) => assert_eq!(m, "cron expression needs 5 or 6 fields, got 0"),
        other => panic!("unexpected {other:?}"),
    }
    match normalize_cron("1 2 3 4 5 6 7 8 9 10 11 12") {
        Err(QueueError::Codec(m)) => assert_eq!(m, "cron expression needs 5 or 6 fields, got 12"),
        other => panic!("unexpected {other:?}"),
    }
}

#[test]
fn invalid_field_is_a_codec_error() {
    assert!(matches!(parse_cron("99 * * * * *"), Err(QueueError::Codec(_))));
}

#[test]
fn every_second_schedule_fires_within_a_second() {
    let schedule = parse_cron("* * * * * *").unwrap();
    let after = 1_700_000_000_000u64;
    let next = next_run_after(&schedule, after).unwrap();
    assert!(next > after && next <= after + 1001);
}

#[test]
fn recurring_job_builders_and_tick_options() {
    let job = RecurringJob::new("daily".into(), "* * * * * *".into(), b"tick".to_vec()).max_attempts(3).priority(7);
    assert!(job.enabled);
    let wire = job.to_wire(42);
    assert_eq!(wire.next_run_ms, 42);
    assert!(schedule_is_due(&wire, 42));
    assert!(!schedule_is_due(&wire, 41));
    let opts = tick_enqueue_options(&wire);
    assert_eq!(opts.priority, 7);
    assert_eq!(opts.max_attempts, 3);
    assert_eq!(opts.dedup_key, Some(b"recurring:daily".to_vec()));
    assert_eq!(recurring_dedup_key(&"x".to_string()), b"recurring:x".to_vec());
}
