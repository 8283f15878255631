use crafty::registry::{
    check_scale_count, check_spawn_count, on_handler_error, placement_mode, MigrationError, PlacementMode, RestartPolicy,
    ScaleError, SpawnError, SupervisionStep,
};

#[test]
fn production_rejects_local_pools_above_one() {
    let mode = placement_mode(false);
    assert_eq!(mode, PlacementMode::Production);
    assert!(check_spawn_count(1, mode).is_ok());
    assert!(matches!(check_spawn_count(3, mode), Err(SpawnError::MultiWorkerDisabled { count: 3 })));
    assert!(matches!(check_scale_count(2, mode), Err(ScaleError::MultiWorkerDisabled { count: 2 })));
}

#[test]
fn dev_registry_reports_development_placement_mode() {
    assert_eq!(placement_mode(true), PlacementMode::DevelopmentMulti);
    assert!(check_spawn_count(3, PlacementMode::DevelopmentMulti).is_ok());
    assert!(check_scale_count(4, PlacementMode::DevelopmentMulti).is_ok());
}

#[test]
fn zero_count_is_rejected() {
    assert!(matches!(check_spawn_count(0, PlacementMode::DevelopmentMulti), Err(SpawnError::ZeroCount)));
    assert!(matches!(check_scale_count(0, PlacementMode::Production), Err(ScaleError::ZeroCount)));
}

#[test]
fn migration_error_carries_display_text() {
    assert_eq!(MigrationError::new(42).0, "42");
    assert_eq!(MigrationError::new("bad state").0, "bad state");
}

#[test]
fn never_policy_keeps_the_instance() {
    let (h, step) = on_handler_error(RestartPolicy::Never, &vec![5], 100, false);
    assert_eq!(step, SupervisionStep::Continue);
    assert_eq!(h, vec![5]);
}

#[test]
fn always_policy_restarts_while_state_can_be_rebuilt() {
    assert_eq!(on_handler_error(RestartPolicy::Always, &vec![], 10, true).1, SupervisionStep::Restart);
    assert_eq!(on_handler_error(RestartPolicy::Always, &vec![], 10, false).1, SupervisionStep::Escalate);
}

#[test]
fn on_failure_budget_slides_with_the_window() {
    let policy = RestartPolicy::OnFailure { max_restarts: 2, window_ms: 1_000 };
    let (h, step) = on_handler_error(policy, &vec![], 0, true);
    assert_eq!((h.clone(), step), (vec![0], SupervisionStep::Restart));
    let (h, step) = on_handler_error(policy, &h, 500, true);
    assert_eq!((h.clone(), step), (vec![0, 500], SupervisionStep::Restart));
    // Two restarts inside the last second: the budget is spent.
    let (h2, step) = on_handler_error(policy, &h, 900, true);
    assert_eq!((h2, step), (vec![0, 500], SupervisionStep::Escalate));
    // At 1 000 ms the first restart has left the window.
    let (h3, step) = on_handler_error(policy, &h, 1_000, true);
    assert_eq!((h3, step), (vec![500, 1_000], SupervisionStep::Restart));
    // Without fresh state the instance escalates even with budget left.
    assert_eq!(on_handler_error(policy, &vec![], 0, false).1, SupervisionStep::Escalate);
}
