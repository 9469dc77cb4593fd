use ecsctl::alias::{
    find_newest_task_with_container, list_line, newest_task, no_tasks, resolve, resolve_remote,
    split_remote, target_text, task_and_container, Resolution, ResolveProblem, Task,
    TaskContainer,
};
use ecsctl::config::Config;
use ecsctl::cp::{
    direction, fetch_command, is_remote, location_constraint, parse_remote, send_command,
    staging_bucket, staging_key, staging_key_for, upload_destination, Direction,
    DEFAULT_PRESIGN_EXPIRY_SECS,
};
use ecsctl::exec::{command_or_shell, exec_arguments, parse_target, PlaceProblem};
use ecsctl::instant::{is_before_opt, Instant};
use ecsctl::sync::{direction as direct, pack_command, shell_escape, unpack_command};

#[test]
fn targets_have_three_parts() {
    assert_eq!(parse_target("c/t/app").unwrap(), ("c", "t", "app"));
    assert_eq!(parse_target("c/t/app/x").unwrap(), ("c", "t", "app/x"));
    let e = parse_target("c/t").unwrap_err();
    assert_eq!(e.kind, PlaceProblem::NotATarget);
    assert_eq!(e.to_string(), "target must be cluster/task/container");
}

#[test]
fn commands_run_in_a_shell_by_default() {
    assert_eq!(command_or_shell(None), "/bin/sh");
    assert_eq!(command_or_shell(Some("ls")), "ls");
    assert_eq!(
        exec_arguments("c", "t", "app", "ls"),
        [
            "ecs",
            "execute-command",
            "--cluster",
            "c",
            "--task",
            "t",
            "--container",
            "app",
            "--interactive",
            "--command",
            "ls"
        ]
        .iter()
        .map(|s| s.to_string())
        .collect::<Vec<_>>()
    );
}

#[test]
fn remote_places_are_recognised() {
    assert_eq!(parse_remote("c/t/app:/x:y"), Some(("c", "t", "app", "/x:y")));
    assert_eq!(parse_remote("c/t/app:"), Some(("c", "t", "app", "")));
    assert_eq!(parse_remote("c/t:/x"), None);
    assert_eq!(parse_remote("file"), None);
    assert!(is_remote("c/t/app:/x") && !is_remote("app:/x"));
    assert_eq!(ecsctl::sync::parse_remote("c/t/app:/x").unwrap(), ("c", "t", "app", "/x"));
    let e = ecsctl::sync::parse_remote("file").unwrap_err();
    assert_eq!(e.kind, PlaceProblem::NoColon);
    assert_eq!(e.to_string(), "remote must contain ':'");
    let e = ecsctl::sync::parse_remote("app:/x").unwrap_err();
    assert_eq!(e.kind, PlaceProblem::NotARemote);
    assert_eq!(e.to_string(), "remote must be cluster/task/container:/path");
}

#[test]
fn files_go_one_way() {
    assert!(matches!(direction("f", "c/t/app:/x"), Ok(Direction::Upload)));
    assert!(matches!(direction("c/t/app:/x", "f"), Ok(Direction::Download)));
    let e = direction("f", "g").unwrap_err();
    assert_eq!(e.kind, PlaceProblem::NotOneRemote);
    assert_eq!(
        e.to_string(),
        "exactly one of src/dst must be a remote path (cluster/task/container:/path)"
    );
    assert!(direction("c/t/app:/x", "c/t/app:/y").is_err());
}

#[test]
fn directories_go_one_way() {
    assert!(matches!(direct("dir", "web:/x"), Ok(Direction::Upload)));
    assert!(matches!(direct("c/t/app:/x", "dir"), Ok(Direction::Download)));
    assert!(matches!(direct("/a:b", "web:/x"), Ok(Direction::Upload)));
    let e = direct("web:/x", "api:/y").unwrap_err();
    assert_eq!(e.kind, PlaceProblem::NotOneRemote);
    assert_eq!(e.to_string(), "exactly one of src/dst must be a remote path (alias:/path)");
    assert!(direct("a", "/b:c").is_err());
}

#[test]
fn files_are_staged() {
    assert_eq!(staging_bucket(Some("mine"), None).unwrap(), "mine");
    assert_eq!(staging_bucket(None, Some("123")).unwrap(), "ecsctl-staging-123");
    let e = staging_bucket(None, None).unwrap_err();
    assert_eq!(e.kind, PlaceProblem::NoAccount);
    assert_eq!(e.to_string(), "no account ID");
    assert_eq!(location_constraint("us-east-1"), None);
    assert_eq!(location_constraint("eu-west-1").as_deref(), Some("eu-west-1"));
    assert_eq!(staging_key_for("id"), "ecsctl/id.tar.gz");
    assert_eq!(DEFAULT_PRESIGN_EXPIRY_SECS, 60);
}

#[test]
fn staging_keys_are_new_each_time() {
    let a = staging_key();
    let b = staging_key();
    assert_ne!(a, b);
    assert!(a.starts_with("ecsctl/") && a.ends_with(".tar.gz"));
    assert_eq!(a.len(), "ecsctl/.tar.gz".len() + 36);
}

#[test]
fn commands_that_move_files() {
    assert_eq!(upload_destination("/x", "f"), "/x");
    assert_eq!(upload_destination("", "f"), "$HOME/f");
    assert_eq!(
        fetch_command("/x", "u"),
        "sh -c 'curl -sf -o \"/x\" \"u\" || wget -q -O \"/x\" \"u\"'"
    );
    assert_eq!(
        send_command("/x", "u"),
        "sh -c 'curl -sf -T \"/x\" \"u\" || wget --method=PUT --body-file=\"/x\" \"u\"'"
    );
    assert_eq!(
        unpack_command("/x", "u"),
        "sh -c 'mkdir -p '\"'\"'/x'\"'\"' && (curl -sf '\"'\"'u'\"'\"' || wget -q -O - '\"'\"'u'\"'\"') | tar xzf - -C '\"'\"'/x'\"'\"''"
    );
    assert_eq!(
        pack_command("/x", "u"),
        "sh -c 'tar czf /tmp/_ecsctl_sync.tar.gz -C '\"'\"'/x'\"'\"' . && curl -sf -T /tmp/_ecsctl_sync.tar.gz '\"'\"'u'\"'\"' && rm -f /tmp/_ecsctl_sync.tar.gz'"
    );
    assert_eq!(
        pack_command("a'b", "u"),
        "sh -c 'tar czf /tmp/_ecsctl_sync.tar.gz -C '\"'\"'a'\"'\"'\\'\"'\"''\"'\"'b'\"'\"' . && curl -sf -T /tmp/_ecsctl_sync.tar.gz '\"'\"'u'\"'\"' && rm -f /tmp/_ecsctl_sync.tar.gz'"
    );
}

#[test]
fn quotes_are_escaped() {
    assert_eq!(shell_escape("plain"), "plain");
    assert_eq!(shell_escape("it's"), "it'\\''s");
    assert_eq!(shell_escape("''"), "'\\'''\\''");
}

fn at(secs: i64) -> Option<Instant> {
    Instant::new(secs, 0)
}

fn task(arn: &str, status: &str, started_at: Option<Instant>, containers: &[&str]) -> Task {
    Task {
        task_arn: Some(arn.to_string()),
        last_status: Some(status.to_string()),
        health_status: None,
        started_at,
        cpu: None,
        memory: None,
        task_definition_arn: None,
        capacity_provider_name: None,
        platform_version: None,
        availability_zone: None,
        connectivity: None,
        enable_execute_command: false,
        attachments: Vec::new(),
        containers: containers
            .iter()
            .map(|n| TaskContainer { name: Some(n.to_string()), last_status: None, image: None })
            .collect(),
    }
}

#[test]
fn the_newest_task_that_runs() {
    let list = vec![
        task("arn:x/1", "RUNNING", at(10), &["app"]),
        task("arn:x/2", "RUNNING", at(20), &["ecs-service-connect-a", "web", "side"]),
        task("arn:x/3", "PENDING", at(30), &["app"]),
        task("arn:x/4", "RUNNING", None, &["app"]),
    ];
    assert_eq!(newest_task(&list, true), Some(1));
    assert_eq!(newest_task(&list, false), Some(2));
    assert_eq!(
        find_newest_task_with_container(&list).unwrap(),
        ("2".to_string(), "web".to_string())
    );
    let same = vec![task("a/1", "RUNNING", at(5), &["x"]), task("a/2", "RUNNING", at(5), &["x"])];
    assert_eq!(newest_task(&same, true), Some(1));
    assert_eq!(newest_task(&Vec::new(), false), None);
}

#[test]
fn tasks_that_cannot_be_used() {
    let e = find_newest_task_with_container(&vec![task("a/1", "PENDING", at(1), &["x"])]);
    let e = e.unwrap_err();
    assert_eq!(e.kind, ResolveProblem::NoRunningTask);
    assert_eq!(e.to_string(), "no RUNNING tasks found");
    let mut t = task("a/1", "RUNNING", at(1), &["ecs-service-connect-a"]);
    let e = task_and_container(&t).unwrap_err();
    assert_eq!(e.kind, ResolveProblem::NoAppContainer);
    assert_eq!(e.to_string(), "task has no app containers");
    t.task_arn = None;
    assert_eq!(task_and_container(&t).unwrap_err().to_string(), "task has no ARN");
    assert_eq!(
        no_tasks("c", "s").to_string(),
        "no RUNNING tasks found for service 's' in cluster 'c'"
    );
}

#[test]
fn short_names_become_targets() {
    let mut cfg = Config::default();
    cfg.set_alias("two", "c/s");
    cfg.set_alias("three", "c/s/app");
    cfg.set_alias("four", "c/s/app/t/1");
    cfg.set_alias("bad", "c");
    match resolve(&cfg, "other") {
        Resolution::Target(t) => assert_eq!(t, "other"),
        other => panic!("{other:?}"),
    }
    match resolve(&cfg, "four") {
        Resolution::Target(t) => assert_eq!(t, "c/t/1/app"),
        other => panic!("{other:?}"),
    }
    match resolve(&cfg, "three") {
        Resolution::NewestTask { cluster, service, container } => {
            assert_eq!((cluster.as_str(), service.as_str()), ("c", "s"));
            assert_eq!(container.as_deref(), Some("app"));
        }
        other => panic!("{other:?}"),
    }
    match resolve(&cfg, "two") {
        Resolution::NewestTask { container, .. } => assert!(container.is_none()),
        other => panic!("{other:?}"),
    }
    match resolve(&cfg, "bad") {
        Resolution::Refused(e) => {
            assert_eq!(e.kind, ResolveProblem::InvalidAlias);
            assert_eq!(
                e.to_string(),
                "invalid alias target: 'c' (expected cluster/service[/container[/task_id]])"
            );
        }
        other => panic!("{other:?}"),
    }
    assert_eq!(target_text("c", "t", "app"), "c/t/app");
    assert_eq!(list_line("web", "c/s"), "web                  → c/s");
}

#[test]
fn short_names_in_remote_places() {
    assert_eq!(split_remote("web:/x"), Some(("web", ":/x")));
    assert_eq!(split_remote("c/t/app:/x"), None);
    assert_eq!(split_remote("file"), None);
    assert_eq!(resolve_remote("web:/x", "c/t/app"), "c/t/app:/x");
    assert_eq!(resolve_remote("web:/x", "web"), "web:/x");
    assert_eq!(resolve_remote("file", "c/t/app"), "file");
}

#[test]
fn points_in_time_are_ordered_and_shown() {
    assert!(Instant::new(1, 1_000_000_000).is_none());
    let a = Instant::new(1, 5).unwrap();
    let b = Instant::new(1, 6).unwrap();
    assert!(a.is_before(&b) && !b.is_before(&a) && !a.is_before(&a));
    assert!(is_before_opt(&None, &at(0)));
    assert!(!is_before_opt(&None, &None));
    assert!(!is_before_opt(&at(0), &None));
    assert_eq!(Instant::new(1_700_000_000, 0).unwrap().show(), "2023-11-14T22:13:20Z");
    assert_eq!(Instant::new(0, 500_000_000).unwrap().show(), "1970-01-01T00:00:00.5Z");
    assert_eq!(Instant::new(i64::MAX, 0).unwrap().show(), "");
}
