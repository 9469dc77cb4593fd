use ecsctl::deployment::{progress, Deployment};
use ecsctl::recreate::{Action, Event, Recreate, Step};
use ecsctl::restart::{
    check_deployment, check_restored, decide_restore, merged_restore_configuration, preflight,
    recovery_snapshot, recreate_deployment_configuration, temp_policy_may_be_live,
    temp_policy_owned, validate_restored_configuration, warn_stop_timeouts,
    DeploymentConfiguration, RestartOptions, RestartProblem, RestoreDecision, ServiceState,
    StopTimeout, RECREATE_WAIT_TIMEOUT_SECS,
};

/// The settings of a deployment configuration that a restart leaves alone.
#[derive(Debug, Clone, Copy, PartialEq)]
struct Rest {
    deployment_circuit_breaker: Option<(bool, bool)>,
    alarms: Option<(bool, bool)>,
    bake_time_in_minutes: Option<i32>,
    lifecycle_hooks: usize,
    linear_configuration: Option<(f64, i32)>,
    canary_configuration: Option<(f64, i32)>,
}

const NOTHING: Rest = Rest {
    deployment_circuit_breaker: None,
    alarms: None,
    bake_time_in_minutes: None,
    lifecycle_hooks: 0,
    linear_configuration: None,
    canary_configuration: None,
};

fn saved_configuration() -> DeploymentConfiguration<Rest> {
    DeploymentConfiguration {
        minimum_healthy_percent: Some(75),
        maximum_percent: Some(150),
        strategy: Some("Rolling".to_string()),
        other: Rest {
            deployment_circuit_breaker: None,
            alarms: None,
            bake_time_in_minutes: Some(7),
            lifecycle_hooks: 1,
            linear_configuration: Some((10.0, 3)),
            canary_configuration: Some((5.0, 4)),
        },
    }
}

fn percentages(min: i32, max: i32) -> DeploymentConfiguration<Rest> {
    DeploymentConfiguration {
        minimum_healthy_percent: Some(min),
        maximum_percent: Some(max),
        strategy: None,
        other: NOTHING,
    }
}

fn service(desired: i32) -> ServiceState<Rest> {
    ServiceState {
        deployment_controller: None,
        scheduling_strategy: None,
        desired_count: desired,
        deployment_configuration: None,
        az_rebalancing: false,
        deployments: Vec::new(),
    }
}

fn base_service() -> ServiceState<Rest> {
    ServiceState {
        deployment_controller: Some("Ecs".to_string()),
        scheduling_strategy: Some("Replica".to_string()),
        deployment_configuration: Some(percentages(100, 200)),
        ..service(1)
    }
}

#[test]
fn preflight_accepts_singleton_replica_rolling() {
    let (saved, az) = preflight("t", &base_service()).expect("should pass");
    assert_eq!(saved.minimum_healthy_percent, Some(100));
    assert_eq!(saved.maximum_percent, Some(200));
    assert!(!az, "AZ rebalancing unset means disabled");
}

#[test]
fn preflight_reports_az_rebalancing_enabled() {
    let svc = ServiceState { az_rebalancing: true, ..base_service() };
    let (_, az) = preflight("t", &svc).expect("should pass");
    assert!(az);
}

#[test]
fn preflight_rejects_non_ecs_controller() {
    let svc = ServiceState {
        deployment_controller: Some("CodeDeploy".to_string()),
        ..service(1)
    };
    let err = preflight("t", &svc).unwrap_err().to_string();
    assert!(err.contains("deployment controller"), "got: {err}");
    assert!(err.contains("(found CodeDeploy)"), "got: {err}");
}

#[test]
fn preflight_rejects_daemon_scheduling() {
    let svc = ServiceState { scheduling_strategy: Some("Daemon".to_string()), ..service(1) };
    let err = preflight("t", &svc).unwrap_err().to_string();
    assert!(err.contains("REPLICA"), "got: {err}");
}

#[test]
fn preflight_rejects_non_singleton() {
    for desired in [0, 2] {
        let err = preflight("t", &service(desired)).unwrap_err().to_string();
        assert!(err.contains("desiredCount=1"), "got: {err}");
    }
}

#[test]
fn preflight_rejects_missing_snapshot() {
    let err = preflight("t", &service(1)).unwrap_err().to_string();
    assert!(err.contains("cannot guarantee restoration"), "got: {err}");
}

#[test]
fn preflight_rejects_blue_green_strategy() {
    let svc = ServiceState {
        deployment_configuration: Some(DeploymentConfiguration {
            strategy: Some("BlueGreen".to_string()),
            ..percentages(100, 200)
        }),
        ..service(1)
    };
    let err = preflight("t", &svc).unwrap_err().to_string();
    assert!(err.contains("ROLLING"), "got: {err}");
}

#[test]
fn recreate_configuration_changes_only_percentages() {
    let saved = saved_configuration();
    let recreate = recreate_deployment_configuration(&saved);

    assert_eq!(recreate.minimum_healthy_percent, Some(0));
    assert_eq!(recreate.maximum_percent, Some(100));
    assert_eq!(
        recreate.other.deployment_circuit_breaker,
        saved.other.deployment_circuit_breaker
    );
    assert_eq!(recreate.other.alarms, saved.other.alarms);
    assert_eq!(recreate.strategy, saved.strategy);
    assert_eq!(recreate.other.bake_time_in_minutes, saved.other.bake_time_in_minutes);
    assert_eq!(recreate.other.lifecycle_hooks, saved.other.lifecycle_hooks);
    assert_eq!(recreate.other.linear_configuration, saved.other.linear_configuration);
    assert_eq!(recreate.other.canary_configuration, saved.other.canary_configuration);
}

#[test]
fn restore_validation_compares_owned_fields_only() {
    let saved = saved_configuration();
    let mut wrong = saved.copy();
    wrong.minimum_healthy_percent = Some(0);
    wrong.maximum_percent = Some(100);
    let error = validate_restored_configuration(&wrong, &saved).unwrap_err();
    assert!(error.to_string().contains("expected"), "got: {}", error.to_string());
    assert_eq!(
        error.to_string(),
        "restored min/max are Some(0)/Some(100), expected Some(75)/Some(150) (concurrent update?)"
    );
    let mut concurrent = saved.copy();
    concurrent.other.bake_time_in_minutes = Some(42);
    assert!(validate_restored_configuration(&concurrent, &saved).is_ok());
    assert!(validate_restored_configuration(&saved, &saved).is_ok());
}

#[test]
fn merged_restore_preserves_concurrent_unowned_changes() {
    let saved = saved_configuration();
    let mut current = recreate_deployment_configuration(&saved);
    current.other.bake_time_in_minutes = Some(42);

    let merged = merged_restore_configuration(&current, &saved);
    assert_eq!(merged.minimum_healthy_percent, saved.minimum_healthy_percent);
    assert_eq!(merged.maximum_percent, saved.maximum_percent);
    assert_eq!(merged.other.bake_time_in_minutes, Some(42));
}

#[test]
fn ownership_detection() {
    let saved = saved_configuration();
    let temp = recreate_deployment_configuration(&saved);
    assert!(temp_policy_owned(&temp, false, true));
    assert!(!temp_policy_owned(&temp, true, true));
    assert!(temp_policy_owned(&temp, true, false));
    let mut foreign = temp.copy();
    foreign.maximum_percent = Some(200);
    assert!(!temp_policy_owned(&foreign, false, true));
}

#[test]
fn options_are_off_by_default() {
    let opts = RestartOptions::default();
    assert!(!opts.wait && !opts.recreate);
    assert_eq!(RECREATE_WAIT_TIMEOUT_SECS, 900);
}

#[test]
fn each_preflight_problem_has_its_message() {
    let err = preflight("web", &service(3)).unwrap_err();
    assert_eq!(err.kind, RestartProblem::NotASingleton);
    assert_eq!(
        err.to_string(),
        "web: --recreate guarantees stop-then-start only for singleton services (desiredCount=1, found 3); with multiple tasks ECS interleaves per-task replacement"
    );
    let err = preflight("web", &service(1)).unwrap_err();
    assert_eq!(err.kind, RestartProblem::NoConfiguration);
    let svc = ServiceState { deployment_controller: Some("External".to_string()), ..service(1) };
    assert_eq!(preflight("web", &svc).unwrap_err().kind, RestartProblem::Controller);
    let svc = ServiceState { scheduling_strategy: Some("Daemon".to_string()), ..service(1) };
    assert_eq!(preflight("web", &svc).unwrap_err().kind, RestartProblem::Scheduling);
}

#[test]
fn short_stop_timeouts_are_named() {
    let list = vec![
        StopTimeout { name: Some("a".to_string()), essential: None, stop_timeout: Some(120) },
        StopTimeout { name: None, essential: Some(true), stop_timeout: Some(30) },
        StopTimeout { name: Some("c".to_string()), essential: Some(true), stop_timeout: None },
        StopTimeout { name: Some("d".to_string()), essential: Some(false), stop_timeout: None },
    ];
    assert_eq!(
        warn_stop_timeouts("web", &list),
        vec![
            "⚠️  web/<unnamed>: stopTimeout is 30s — shutdown hooks longer than this will be killed (recommend 120)".to_string(),
            "⚠️  web/c: stopTimeout not set (default 30s) — shutdown hooks longer than 30s will be killed (recommend 120)".to_string(),
        ]
    );
}

#[test]
fn the_snapshot_has_defaults() {
    let mut saved = percentages(50, 150);
    assert_eq!(
        recovery_snapshot("web", &saved, true),
        "ℹ️  web: recovery snapshot — minimumHealthyPercent=50 maximumPercent=150 availabilityZoneRebalancing=ENABLED"
    );
    saved.minimum_healthy_percent = None;
    saved.maximum_percent = None;
    assert_eq!(
        recovery_snapshot("web", &saved, false),
        "ℹ️  web: recovery snapshot — minimumHealthyPercent=100 maximumPercent=200 availabilityZoneRebalancing=DISABLED"
    );
}

fn deployed(id: &str, state: &str, running: i32) -> Deployment {
    Deployment {
        id: Some(id.to_string()),
        status: Some("PRIMARY".to_string()),
        running_count: running,
        desired_count: 1,
        rollout_state: Some(state.to_string()),
    }
}

fn with(min: i32, max: i32) -> ServiceState<Rest> {
    ServiceState { deployment_configuration: Some(percentages(min, max)), ..base_service() }
}

#[test]
fn a_policy_that_may_be_live_is_recognised() {
    assert!(temp_policy_may_be_live(&with(0, 100), false));
    assert!(temp_policy_may_be_live(&with(0, 200), false));
    assert!(temp_policy_may_be_live(&with(50, 100), false));
    assert!(temp_policy_may_be_live(&with(50, 200), true));
    assert!(!temp_policy_may_be_live(&with(50, 200), false));
    assert!(!temp_policy_may_be_live(&service(1), true));
}

#[test]
fn the_deployment_that_came_to_rest_is_checked() {
    let mut svc = base_service();
    assert_eq!(
        check_deployment::<Rest>("d1", &None).unwrap_err().kind,
        RestartProblem::ServiceNotFound
    );
    svc.deployments = Vec::new();
    assert_eq!(
        check_deployment("d1", &Some(svc)).unwrap_err().to_string(),
        "no PRIMARY deployment found"
    );
    let mut svc = base_service();
    svc.deployments = vec![deployed("d2", "COMPLETED", 1)];
    assert_eq!(
        check_deployment("d1", &Some(svc)).unwrap_err().to_string(),
        "service stabilized on deployment d2, not the recreate deployment d1 — it was likely rolled back or superseded by a concurrent deploy"
    );
    let mut svc = base_service();
    svc.deployments = vec![deployed("d1", "COMPLETED", 1)];
    assert!(check_deployment("d1", &Some(svc)).is_ok());
}

#[test]
fn giving_the_policy_back_is_decided() {
    let saved = percentages(50, 150);
    assert!(matches!(
        decide_restore(&Some(with(50, 150)), &saved, false),
        RestoreDecision::Restored
    ));
    match decide_restore(&Some(with(0, 100)), &saved, false) {
        RestoreDecision::Write(c) => {
            assert_eq!(c.minimum_healthy_percent, Some(50));
            assert_eq!(c.maximum_percent, Some(150));
        }
        other => panic!("{other:?}"),
    }
    match decide_restore(&Some(with(0, 175)), &saved, false) {
        RestoreDecision::Refused(e) => assert_eq!(
            e.to_string(),
            "ownership lost: the service's deployment configuration was changed concurrently (min/max are Some(0)/Some(175)) — not overwriting; reconcile manually or via your IaC"
        ),
        other => panic!("{other:?}"),
    }
    match decide_restore(&Some(service(1)), &saved, false) {
        RestoreDecision::Refused(e) => {
            assert_eq!(e.to_string(), "service has no deploymentConfiguration before restore")
        }
        other => panic!("{other:?}"),
    }
}

#[test]
fn the_restored_service_is_checked() {
    let saved = percentages(50, 150);
    assert!(check_restored(&Some(with(50, 150)), &saved, false).is_ok());
    assert_eq!(
        check_restored(&Some(with(50, 150)), &saved, true).unwrap_err().to_string(),
        "availabilityZoneRebalancing is DISABLED after restore, expected ENABLED"
    );
    assert_eq!(
        check_restored::<Rest>(&None, &saved, true).unwrap_err().to_string(),
        "service not found"
    );
    assert_eq!(
        check_restored(&Some(service(1)), &saved, false).unwrap_err().to_string(),
        "service has no deploymentConfiguration after restore"
    );
}

#[test]
fn progress_is_shown() {
    let p = progress(&vec![deployed("d", "IN_PROGRESS", 0)]);
    assert!(!p.done);
    let p = progress(&vec![deployed("d", "COMPLETED", 1)]);
    assert!(p.done);
}

fn finished(s: Step<Rest>) -> (Vec<String>, Result<(), Vec<String>>) {
    match s.action {
        Action::Finish(r) => (s.lines, r),
        other => panic!("{other:?}"),
    }
}

#[test]
fn a_restart_gives_the_policy_back() {
    let svc = ServiceState { az_rebalancing: true, ..with(50, 150) };
    let (mut m, first) = Recreate::start("web", &svc).unwrap();
    match first {
        Action::Update { configuration, disable_rebalancing } => {
            assert_eq!(configuration.minimum_healthy_percent, Some(0));
            assert_eq!(configuration.maximum_percent, Some(100));
            assert!(disable_rebalancing);
        }
        other => panic!("{other:?}"),
    }
    assert!(m.snapshot().contains("minimumHealthyPercent=50"));
    let s = m.step(Event::Updated(vec![deployed("d1", "IN_PROGRESS", 0)]));
    assert!(matches!(s.action, Action::Wait));
    assert!(matches!(m.step(Event::Stable).action, Action::Describe));
    let mut live = with(0, 100);
    live.deployments = vec![deployed("d1", "COMPLETED", 1)];
    let s = m.step(Event::Described(Some(live)));
    assert_eq!(s.lines, vec!["✓ Deployment stable for web".to_string()]);
    assert!(matches!(s.action, Action::Describe));
    match m.step(Event::Described(Some(with(0, 100)))).action {
        Action::Write { configuration, enable_rebalancing } => {
            assert_eq!(configuration.minimum_healthy_percent, Some(50));
            assert_eq!(configuration.maximum_percent, Some(150));
            assert!(enable_rebalancing);
        }
        other => panic!("{other:?}"),
    }
    assert!(matches!(m.step(Event::Written).action, Action::Describe));
    let back = ServiceState { az_rebalancing: true, ..with(50, 150) };
    let (lines, result) = finished(m.step(Event::Described(Some(back))));
    assert_eq!(lines, vec!["✓ Restored previous deployment configuration for web".to_string()]);
    assert_eq!(result, Ok(()));
}

#[test]
fn a_cancelled_restart_gives_the_policy_back_and_fails() {
    let (mut m, _) = Recreate::start("web", &with(50, 150)).unwrap();
    m.step(Event::Updated(vec![deployed("d1", "IN_PROGRESS", 0)]));
    assert!(matches!(m.step(Event::Cancelled).action, Action::Describe));
    let (_, result) = finished(m.step(Event::Described(Some(with(50, 150)))));
    assert_eq!(
        result.unwrap_err(),
        vec![
            "web: recreate deployment did not stabilize (original deployment configuration was restored)".to_string(),
            "cancelled while waiting for the recreate deployment".to_string(),
        ]
    );
}

#[test]
fn a_policy_that_cannot_be_given_back_fails_after_three_attempts() {
    let (mut m, _) = Recreate::start("web", &with(50, 150)).unwrap();
    m.step(Event::Updated(Vec::new()));
    m.step(Event::Stable);
    let mut lines = Vec::new();
    for _ in 0..2 {
        let s = m.step(Event::DescribeFailed("no network".to_string()));
        lines.extend(s.lines);
        assert!(matches!(s.action, Action::Pause));
        assert!(matches!(m.step(Event::Paused).action, Action::Describe));
    }
    assert_eq!(
        lines[1],
        "⚠️  restore attempt 2/3 failed, retrying: DescribeServices failed before restoration"
    );
    let (_, result) = finished(m.step(Event::DescribeFailed("no network".to_string())));
    let errors = result.unwrap_err();
    assert_eq!(
        errors[0],
        "web: recreate deployment did not stabilize AND the deployment configuration could not be restored"
    );
    assert_eq!(
        errors[1],
        "UpdateService returned no PRIMARY deployment id — cannot verify the recreate deployment"
    );
}

#[test]
fn a_policy_of_somebody_else_is_left_alone() {
    let (mut m, _) = Recreate::start("web", &with(50, 150)).unwrap();
    m.step(Event::Updated(vec![deployed("d1", "IN_PROGRESS", 0)]));
    m.step(Event::TimedOut);
    let (lines, result) = finished(m.step(Event::Described(Some(with(10, 110)))));
    assert!(lines[0].starts_with("❌ web: failed to restore deployment configuration (ownership lost"));
    assert!(result.is_err());
}

#[test]
fn an_update_that_failed_is_looked_into() {
    let (mut m, _) = Recreate::start("web", &with(50, 150)).unwrap();
    assert!(matches!(
        m.step(Event::UpdateFailed("timeout".to_string())).action,
        Action::Describe
    ));
    let (_, result) = finished(m.step(Event::Described(Some(with(50, 150)))));
    assert_eq!(
        result.unwrap_err(),
        vec!["UpdateService failed for web".to_string(), "timeout".to_string()]
    );
    let (mut m, _) = Recreate::start("web", &with(50, 150)).unwrap();
    m.step(Event::UpdateFailed("timeout".to_string()));
    let s = m.step(Event::Described(Some(with(0, 100))));
    assert_eq!(
        s.lines,
        vec!["⚠️  web: temporary policy is live despite the error — restoring...".to_string()]
    );
    assert!(matches!(
        m.step(Event::Described(Some(with(0, 100)))).action,
        Action::Write { .. }
    ));
    m.step(Event::Written);
    let (_, result) = finished(m.step(Event::Described(Some(with(50, 150)))));
    assert_eq!(result.unwrap_err()[0], "UpdateService failed for web");
}
