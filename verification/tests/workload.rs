use crafty::workload::{decide, governor_step, ConsumerTune, WorkloadOpts};

#[test]
fn decide_hot_protects_api() {
    let opts = WorkloadOpts::balanced(None);
    let (tokens, tune) = decide(&opts, opts.api_protect_connections, 100);
    assert_eq!(tokens, opts.min_compute_tokens.max(1));
    assert_eq!(tune, opts.when_protective);
}

#[test]
fn decide_idle_with_depth_boosts_jobs() {
    let opts = WorkloadOpts::balanced(None);
    let (tokens, tune) = decide(&opts, 0, 5);
    assert_eq!(tokens, opts.max_compute_tokens.max(1));
    assert_eq!(tune, opts.when_opportunistic);
}

#[test]
fn decide_moderate_load_balances() {
    let opts = WorkloadOpts::balanced(None);
    let (tokens, tune) = decide(&opts, 4, 0);
    assert!(tokens > opts.min_compute_tokens);
    assert!(tokens <= opts.max_compute_tokens);
    assert_eq!(tune, opts.when_balanced);
}

#[test]
fn balanced_ceiling_formula_exact_values() {
    let opts = WorkloadOpts::balanced(Some(8));
    // span 31, pressure 4, headroom 7: 1 + 7 * 27 / 31 = 1 + 6
    assert_eq!(decide(&opts, 4, 0).0, 7);
    // idle gateway, empty queues: full headroom
    assert_eq!(decide(&opts, 0, 0), (8, opts.when_balanced));
    // just below the protection threshold: pressure saturates at span
    assert_eq!(decide(&opts, 31, 0).0, 1);
}

#[test]
fn presets_and_builders() {
    let b = WorkloadOpts::balanced(None);
    assert_eq!(b.max_compute_tokens, 4);
    assert_eq!(b.tick_ms, 500);
    let a = WorkloadOpts::api_first(Some(2));
    assert_eq!(a.api_protect_connections, 8);
    assert_eq!(a.when_protective, ConsumerTune { batch: 1, idle_sleep_ms: 1000 });
    assert_eq!(a.max_compute_tokens, 2);
    let j = WorkloadOpts::jobs_opportunistic(Some(2));
    assert_eq!(j.api_protect_connections, 64);
    assert_eq!(j.when_opportunistic, ConsumerTune { batch: 32, idle_sleep_ms: 5 });
    let z = b.max_compute_tokens(0).api_protect_connections(0);
    assert_eq!(z.max_compute_tokens, 1);
    assert_eq!(z.api_protect_connections, 1);
    assert_eq!(ConsumerTune::default(), ConsumerTune { batch: 1, idle_sleep_ms: 100 });
}

#[test]
fn governor_step_reports_tune_changes() {
    let opts = WorkloadOpts::balanced(Some(4));
    let (_, tune, changed) = governor_step(&opts, opts.when_balanced, 0, 3);
    assert_eq!(tune, opts.when_opportunistic);
    assert!(changed);
    let (_, _, changed) = governor_step(&opts, tune, 0, 9);
    assert!(!changed);
}

#[test]
fn more_connections_never_raise_ceiling() {
    let opts = WorkloadOpts::balanced(Some(16));
    let mut last = usize::MAX;
    for c in 0..40 {
        let (t, _) = decide(&opts, c, 1);
        assert!(t <= last);
        assert!(t >= 1 && t <= 16);
        last = t;
    }
}

#[test]
fn governor_publishes_opportunistic_tune() {
    // One job waits in the queue and the gateway is idle: the first governor
    // tick switches the consumers to the opportunistic tune.
    let opts = WorkloadOpts::balanced(None);
    let (ceiling, tune, changed) = governor_step(&opts, ConsumerTune::default(), 0, 1);
    assert_eq!(tune.batch, opts.when_opportunistic.batch);
    assert!(changed);
    assert_eq!(ceiling, opts.max_compute_tokens.max(1));
}
