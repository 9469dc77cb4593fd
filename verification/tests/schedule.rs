use ecsctl::config::{Config, ConfigProblem};
use ecsctl::json::{object, put, string, Json};
use ecsctl::scheduler::infra::{
    is_conflict, is_not_found, is_retryable_scheduler_error,
    sanitize_explicit_name, sanitize_schedule_name, validate_role_arn,
    validate_schedule_expression, Attempts, CreateOutcome, CreateStep, Retry, ScheduleProblem, ServiceError,
};
use ecsctl::scheduler::schedule::{
    check_options, check_schedule_name, display_target, list_header, list_row, missing_schedule,
    parse_target_display, schedule_for, CreateProblem, CreateScheduleOpts, ScheduleDetail,
};

fn opts<'a>(name: &'a str, count: i32, explicit_name: Option<&'a str>) -> CreateScheduleOpts<'a> {
    CreateScheduleOpts {
        name,
        count,
        schedule_expression: "rate(5 minutes)",
        timezone: "UTC",
        role_arn: "arn:aws:iam::123456789012:role/r",
        explicit_name,
    }
}

fn config() -> Config {
    let mut cfg = Config::default();
    cfg.set_alias("web", "prod/web");
    cfg.set_alias("api", "prod/api");
    cfg.groups.insert("all".to_string(), vec!["web".to_string(), "api".to_string()]);
    cfg
}

#[test]
fn options_are_checked_in_order() {
    let cfg = config();
    assert_eq!(check_options(&cfg, &opts("@all", 1, None)).unwrap().len(), 2);
    let e = check_options(&cfg, &opts("@none", -1, None)).unwrap_err();
    assert_eq!(e.kind, CreateProblem::Config(ConfigProblem::NegativeCount));
    let bad = CreateScheduleOpts { schedule_expression: "x", ..opts("@none", 0, None) };
    let e = check_options(&cfg, &bad).unwrap_err();
    assert_eq!(e.kind, CreateProblem::Schedule(ScheduleProblem::Expression));
    let bad = CreateScheduleOpts { role_arn: "x", ..opts("@none", 0, None) };
    let e = check_options(&cfg, &bad).unwrap_err();
    assert_eq!(e.kind, CreateProblem::Schedule(ScheduleProblem::ArnFormat));
    let e = check_options(&cfg, &opts("@none", 0, None)).unwrap_err();
    assert_eq!(e.kind, CreateProblem::Config(ConfigProblem::EmptyGroup));
    assert_eq!(e.to_string(), "group '@none' is empty or not found");
}

#[test]
fn a_schedule_scales_one_service() {
    let r = schedule_for(&config(), &opts("web", 2, None), "web", 1).unwrap();
    assert_eq!(r.name, "ecsctl-scale-web-to-2");
    assert_eq!(r.group_name, "ecsctl-schedules");
    assert_eq!(r.schedule_expression, "rate(5 minutes)");
    assert_eq!(r.description, "ecsctl: scale web (prod/web) to 2");
    assert_eq!(r.target_arn, "arn:aws:scheduler:::aws-sdk:ecs:updateService");
    assert_eq!(r.role_arn, "arn:aws:iam::123456789012:role/r");
    assert_eq!(r.input, "{\"Cluster\":\"prod\",\"DesiredCount\":2,\"Service\":\"web\"}");
    assert_eq!(parse_target_display(&r.input).as_deref(), Some("prod/web → 2"));
    assert_eq!(
        schedule_for(&config(), &opts("x", 2, None), "x", 1).unwrap_err().to_string(),
        "alias 'x' not found"
    );
}

#[test]
fn explicit_names_are_made_distinct_in_a_group() {
    let r = schedule_for(&config(), &opts("web", 0, Some("night")), "web", 1).unwrap();
    assert_eq!(r.name, "night");
    let r = schedule_for(&config(), &opts("@all", 0, Some("night")), "web", 2).unwrap();
    assert_eq!(r.name, "night-web");
}

#[test]
fn explicit_names_are_made_safe() {
    assert_eq!(sanitize_explicit_name("ok_name.1"), "ok_name.1");
    let n = sanitize_explicit_name("a b");
    assert!(n.starts_with("a-b-") && n.len() == 10);
    assert_ne!(n, sanitize_explicit_name("a-b"));
    assert_eq!(sanitize_explicit_name(&"x".repeat(64)), "x".repeat(64));
    let long = sanitize_explicit_name(&"x".repeat(65));
    assert_eq!(long.len(), 64);
    assert!(long.starts_with(&"x".repeat(57)));
    assert_eq!(sanitize_explicit_name("é"), "--181e01");
    assert_eq!(sanitize_schedule_name("é", -1), "ecsctl-scale---181e01-to--1");
}

#[test]
fn different_services_have_different_schedules() {
    assert_ne!(sanitize_schedule_name("web", 1), sanitize_schedule_name("web1", 1));
    assert_ne!(sanitize_schedule_name("web", 1), sanitize_schedule_name("web-to-1", 1));
    assert_ne!(sanitize_schedule_name("web", 1), sanitize_schedule_name("web", 11));
    let long = "x".repeat(46);
    assert_eq!(sanitize_schedule_name(&long, 0), format!("ecsctl-scale-{long}-to-0"));
}

#[test]
fn inputs_that_are_not_of_a_schedule() {
    assert_eq!(parse_target_display("{"), None);
    assert_eq!(parse_target_display("{\"Cluster\":\"c\",\"Service\":\"s\"}"), None);
    assert_eq!(
        parse_target_display("{\"Cluster\":\"c\",\"Service\":\"s\",\"DesiredCount\":\"2\"}"),
        None
    );
    assert_eq!(
        parse_target_display("{\"Cluster\":\"c\",\"Service\":1,\"DesiredCount\":2}"),
        None
    );
    let mut entries = Vec::new();
    put(&mut entries, "Cluster", string("c"));
    put(&mut entries, "Service", string("s"));
    put(&mut entries, "DesiredCount", Json::Int(-4));
    assert_eq!(display_target(&object(entries)).as_deref(), Some("c/s → -4"));
}

#[test]
fn schedules_are_listed() {
    assert_eq!(
        list_header(),
        format!("{:<40} {:<28} {:<14} {:<8} TARGET", "NAME", "SCHEDULE", "TIMEZONE", "STATE")
    );
    let detail = ScheduleDetail {
        schedule_expression: Some("rate(1 hour)".to_string()),
        timezone: None,
        input: Some("{\"Cluster\":\"c\",\"Service\":\"s\",\"DesiredCount\":3}".to_string()),
    };
    assert_eq!(
        list_row("n", &Some(detail), &Some("ENABLED".to_string())),
        format!("{:<40} {:<28} {:<14} {:<8} {}", "n", "rate(1 hour)", "UTC", "ENABLED", "c/s → 3")
    );
    assert_eq!(
        list_row("n", &None, &None),
        format!("{:<40} {:<28} {:<14} {:<8} {}", "n", "-", "-", "?", "-")
    );
    let empty = ScheduleDetail { schedule_expression: None, timezone: None, input: None };
    assert_eq!(
        list_row("n", &Some(empty), &None),
        format!("{:<40} {:<28} {:<14} {:<8} {}", "n", "-", "UTC", "?", "-")
    );
}

fn error(code: &str, message: &str) -> Option<ServiceError> {
    Some(ServiceError {
        code: Some(code.to_string()),
        message: Some(message.to_string()),
        conflict: false,
        not_found: false,
    })
}

#[test]
fn some_errors_pass() {
    assert!(is_retryable_scheduler_error(&error("ThrottlingException", "")));
    assert!(is_retryable_scheduler_error(&error("TooManyRequestsException", "")));
    assert!(is_retryable_scheduler_error(&error("X", "Unable To ASSUME the role")));
    assert!(is_retryable_scheduler_error(&error("X", "role cannot be assumed")));
    assert!(is_retryable_scheduler_error(&error("X", "is not yet READY")));
    assert!(!is_retryable_scheduler_error(&error("X", "not authorized to pass role")));
    assert!(!is_retryable_scheduler_error(&None));
}

#[test]
fn retries_take_longer_and_longer() {
    let mut attempts = Attempts::first();
    for (n, pause) in [(1, 5), (2, 10), (3, 15)] {
        match attempts.step(true) {
            Retry::After { secs, line } => {
                assert_eq!(secs, pause);
                assert_eq!(
                    line,
                    format!("  ⏳ Retryable error, retrying in {pause}s (attempt {n}/4)")
                );
            }
            other => panic!("{other:?}"),
        }
    }
    assert!(matches!(attempts.step(true), Retry::GiveUp));
    assert!(matches!(attempts.step(true), Retry::GiveUp));
    assert!(matches!(Attempts::first().step(false), Retry::GiveUp));
}

#[test]
fn an_update_is_tried_again() {
    let mut attempts = Attempts::first();
    let throttled = error("ThrottlingException", "");
    assert!(matches!(attempts.after_failure(&throttled), Retry::After { secs: 5, .. }));
    assert!(matches!(attempts.after_failure(&error("X", "")), Retry::GiveUp));
    assert!(matches!(attempts.after_failure(&throttled), Retry::After { secs: 10, .. }));
    assert!(matches!(attempts.after_failure(&None), Retry::GiveUp));
}

#[test]
fn a_schedule_that_exists_is_updated() {
    let conflict = Some(ServiceError { code: None, message: None, conflict: true, not_found: false });
    assert!(is_conflict(&conflict) && !is_not_found(&conflict));
    let mut attempts = Attempts::first();
    assert!(matches!(
        attempts.after_create_failure(&error("ThrottlingException", "")),
        CreateStep::Again { secs: 5, .. }
    ));
    assert!(matches!(
        attempts.after_create_failure(&error("X", "is not yet ready")),
        CreateStep::Again { secs: 10, .. }
    ));
    assert!(matches!(
        attempts.after_create_failure(&conflict),
        CreateStep::Done(CreateOutcome::AlreadyExists)
    ));
    assert!(matches!(attempts.after_create_failure(&error("X", "")), CreateStep::Fail));
    assert!(matches!(attempts.after_create_failure(&None), CreateStep::Fail));
}

#[test]
fn deleting_a_schedule() {
    assert!(check_schedule_name("n").is_ok());
    assert_eq!(check_schedule_name("").unwrap_err().to_string(), "schedule name cannot be empty");
    let gone = Some(ServiceError { code: None, message: None, conflict: false, not_found: true });
    assert_eq!(
        missing_schedule("n", "g", &gone).unwrap().to_string(),
        "schedule 'n' not found in group 'g'"
    );
    assert!(missing_schedule("n", "g", &None).is_none());
}

#[test]
fn each_problem_of_a_schedule() {
    let arn = |s: &str| validate_role_arn(s).unwrap_err().kind;
    assert_eq!(arn("x"), ScheduleProblem::ArnFormat);
    assert_eq!(arn("x:aws:iam::1:role/r"), ScheduleProblem::ArnPrefix);
    assert_eq!(arn("arn:aws-x:iam::1:role/r"), ScheduleProblem::ArnPartition);
    assert_eq!(arn("arn:aws:ecs::1:role/r"), ScheduleProblem::ArnService);
    assert_eq!(arn("arn:aws:iam::1a:role/r"), ScheduleProblem::ArnAccount);
    assert_eq!(arn("arn:aws:iam::1:user/r"), ScheduleProblem::ArnResource);
    assert_eq!(arn("arn:aws:iam::1:role/"), ScheduleProblem::ArnRoleName);
    let expr = |s: &str| validate_schedule_expression(s).unwrap_err().kind;
    assert_eq!(expr("cron()"), ScheduleProblem::CronFields);
    assert_eq!(expr("rate( )"), ScheduleProblem::EmptyRate);
    assert_eq!(expr("rate(5)"), ScheduleProblem::RateFormat);
    assert_eq!(expr("rate(-5 days)"), ScheduleProblem::RateValue);
    assert_eq!(expr("rate(5 weeks)"), ScheduleProblem::RateUnit);
    assert_eq!(expr("at( )"), ScheduleProblem::EmptyAt);
    assert_eq!(expr("cron(0 8 * * ? *"), ScheduleProblem::Expression);
    assert!(validate_schedule_expression("  rate(+5 \t days) \n").is_ok());
    assert_eq!(
        validate_schedule_expression("rate( 5 )").unwrap_err().to_string(),
        "invalid rate expression: expected 'rate(<value> <unit>)', got 'rate(5)'. Example: rate(5 minutes)"
    );
}
