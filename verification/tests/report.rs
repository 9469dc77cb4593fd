use ecsctl::alias::{AttachmentDetail, Task, TaskContainer};
use ecsctl::config::Config;
use ecsctl::describe::{
    build_json, describe_head, describe_idle, describe_logs, describe_task, extract_eni_details,
    log_stream_of, print_json, read_format, source_of, task_id_of, task_json, Format,
};
use ecsctl::ecs::{
    ContainerDefinition, KeyValuePair, LogConfiguration, Secret, TaskDefinition,
};
use ecsctl::instant::Instant;
use ecsctl::json::{array, object, put, string, Json};
use ecsctl::jsonpath::{is_readable, resolve_jsonpath_template};
use ecsctl::strmap::StrMap;
use ecsctl::table::{
    colorize_status, same_rows, service_row, shown_image, sorted_places, table_lines,
    table_order, wanted_definition, FirstDeployment, ServiceLookup, ServiceRow, ServiceSummary,
};

fn detail(name: &str, value: &str) -> AttachmentDetail {
    AttachmentDetail { name: Some(name.to_string()), value: Some(value.to_string()) }
}

fn task() -> Task {
    Task {
        task_arn: Some("arn:aws:ecs:r:1:task/cl/abc".to_string()),
        last_status: Some("RUNNING".to_string()),
        health_status: None,
        started_at: Instant::new(1_700_000_000, 0),
        cpu: Some("256".to_string()),
        memory: None,
        task_definition_arn: Some("td:1".to_string()),
        capacity_provider_name: Some("FARGATE".to_string()),
        platform_version: Some("1.4.0".to_string()),
        availability_zone: Some("eu-west-1a".to_string()),
        connectivity: Some("CONNECTED".to_string()),
        enable_execute_command: true,
        attachments: vec![
            vec![detail("subnetId", "s"), detail("privateIPv4Address", "10.0.0.1")],
            vec![detail("networkInterfaceId", "eni-1"), detail("privateIPv4Address", "10.0.0.2")],
        ],
        containers: vec![
            TaskContainer {
                name: Some("ecs-service-connect-x".to_string()),
                last_status: Some("RUNNING".to_string()),
                image: None,
            },
            TaskContainer {
                name: Some("app".to_string()),
                last_status: Some("RUNNING".to_string()),
                image: Some("app:1".to_string()),
            },
        ],
    }
}

fn definition(log_driver: &str) -> TaskDefinition {
    let mut options = StrMap::new();
    options.insert("awslogs-group".to_string(), "/ecs/app".to_string());
    options.insert("awslogs-stream-prefix".to_string(), "svc".to_string());
    TaskDefinition {
        family: None,
        cpu: Some("256".to_string()),
        memory: Some("512".to_string()),
        network_mode: None,
        requires_compatibilities: Vec::new(),
        cpu_architecture: Some("ARM64".to_string()),
        operating_system_family: None,
        container_definitions: vec![ContainerDefinition {
            name: Some("app".to_string()),
            image: Some("123.dkr.ecr/repo/app:1".to_string()),
            essential: None,
            command: None,
            entry_point: None,
            user: None,
            readonly_root_filesystem: None,
            depends_on: Vec::new(),
            linux_parameters: None,
            mount_points: Vec::new(),
            port_mappings: Vec::new(),
            environment: vec![
                KeyValuePair { name: Some("A".to_string()), value: Some("1".to_string()) },
                KeyValuePair { name: None, value: None },
            ],
            secrets: vec![Secret {
                name: "S".to_string(),
                value_from: "arn:aws:ssm:r:1:parameter/s".to_string(),
            }],
            log_configuration: Some(LogConfiguration {
                log_driver: log_driver.to_string(),
                options: Some(options),
            }),
        }],
        volumes: Vec::new(),
        execution_role_arn: None,
        task_role_arn: None,
    }
}

#[test]
fn addresses_are_found() {
    assert_eq!(
        extract_eni_details(&task()),
        (Some("10.0.0.2".to_string()), Some("eni-1".to_string()))
    );
    let bare = Task { attachments: Vec::new(), ..task() };
    assert_eq!(extract_eni_details(&bare), (None, None));
}

#[test]
fn formats() {
    assert!(matches!(read_format(None), Format::Text));
    assert!(matches!(read_format(Some("json")), Format::Json));
    assert!(matches!(read_format(Some("--json")), Format::Json));
    assert!(matches!(read_format(Some("jsonpath='{.a}'")), Format::Template("{.a}")));
    assert!(matches!(read_format(Some("jsonpath={.a}")), Format::Template("{.a}")));
    match read_format(Some("xml")) {
        Format::Refused(e) => assert_eq!(
            e.to_string(),
            "unknown output format 'xml': use 'json' or \"jsonpath='<template>'\""
        ),
        other => panic!("{other:?}"),
    }
}

#[test]
fn a_task_is_described() {
    assert_eq!(
        describe_head("web", "c/s", "c", "s", 1),
        ["Alias:   web", "Target:  c/s", "Cluster: c", "Service: s", "Tasks:   1", ""]
            .map(|s| s.to_string())
            .to_vec()
    );
    assert_eq!(
        describe_idle("web", "c/s"),
        ["Alias:   web", "Target:  c/s", "Status:  No RUNNING tasks"]
            .map(|s| s.to_string())
            .to_vec()
    );
    assert_eq!(task_id_of(&task()), "abc");
    assert_eq!(
        describe_task(&task(), &Some(definition("awslogs")), &Some("1.2.3.4".to_string())),
        [
            "  Task:       abc",
            "  Status:     RUNNING",
            "  PrivateIP:  10.0.0.2",
            "  PublicIP:   1.2.3.4",
            "  Health:     UNKNOWN",
            "  Started:    2023-11-14T22:13:20Z",
            "  CPU/Memory: 256 / ?",
            "  Arch:       ARM64",
            "  Capacity:   FARGATE",
            "  Platform:   1.4.0",
            "  AZ:         eu-west-1a",
            "  Connected:  CONNECTED",
            "  ExecEnabled:true",
            "  TaskDef:    td:1",
            "  Containers:",
            "    - ecs-service-connect-x (sidecar): RUNNING [?]",
            "    - app: RUNNING [app:1]",
            "      Env:",
            "        A=1",
            "        ?=",
            "        S=*** (from ssm)",
            "",
        ]
        .map(|s| s.to_string())
        .to_vec()
    );
    let bare = Task { started_at: None, ..task() };
    let lines = describe_task(&bare, &None, &None);
    assert!(lines.contains(&"  Started:    -".to_string()));
    assert!(lines.contains(&"  Arch:       X86_64".to_string()));
    assert!(!lines.contains(&"      Env:".to_string()));
}

#[test]
fn secrets_are_named_by_their_source() {
    assert_eq!(source_of("arn:aws:secretsmanager:r:1:x"), "secretsmanager");
    assert_eq!(source_of("arn:aws:ssm:r:1:x"), "ssm");
    assert_eq!(source_of("x"), "secret");
}

#[test]
fn the_end_of_the_log_is_shown() {
    assert_eq!(
        log_stream_of(&definition("awslogs"), "abc"),
        Some(("/ecs/app".to_string(), "svc/app/abc".to_string()))
    );
    assert_eq!(log_stream_of(&definition("splunk"), "abc"), None);
    assert_eq!(
        describe_logs(&vec![Some("a".to_string()), None]),
        ["  Logs (last 2):", "    a", "    ", ""].map(|s| s.to_string()).to_vec()
    );
    assert_eq!(describe_logs(&Vec::new()), Vec::<String>::new());
}

fn report() -> Json {
    let t = task_json(&task(), &Some(definition("awslogs")), &None);
    build_json("web", "c/s", "c", "s", vec![t])
}

#[test]
fn a_report_is_written_as_json() {
    let v: serde_json::Value = serde_json::from_str(&print_json(&report())).unwrap();
    assert_eq!(v["alias"], "web");
    let t = &v["tasks"][0];
    assert_eq!(t["task_id"], "abc");
    assert_eq!(t["private_ip"], "10.0.0.2");
    assert!(t["public_ip"].is_null());
    assert_eq!(t["exec_enabled"], true);
    assert_eq!(t["containers"][0]["sidecar"], true);
    assert!(t["containers"][0].get("env").is_none());
    assert_eq!(t["containers"][1]["env"]["A"], "1");
    assert_eq!(t["containers"][1]["env"]["?"], "");
    assert_eq!(t["containers"][1]["secrets"]["S"], "arn:aws:ssm:r:1:parameter/s");
    assert_eq!(
        print_json(&build_json("a", "t", "c", "s", Vec::new())),
        "{\n  \"alias\": \"a\",\n  \"cluster\": \"c\",\n  \"service\": \"s\",\n  \"target\": \"t\",\n  \"tasks\": []\n}"
    );
}

#[test]
fn templates_are_filled_in() {
    let v = report();
    let fill = |t: &str| {
        assert!(is_readable(t));
        resolve_jsonpath_template(t, &v)
    };
    assert_eq!(fill("{.tasks[0].private_ip}"), "10.0.0.2");
    assert_eq!(fill("{ .alias } runs {.tasks[0].task_id}!"), "web runs abc!");
    assert_eq!(fill("{.tasks[0].exec_enabled}"), "true");
    assert_eq!(fill("{.tasks[0].public_ip}"), "");
    assert_eq!(fill("{.tasks[7].task_id}"), "");
    assert_eq!(fill("{.nope.more}"), "");
    assert_eq!(fill("{alias}"), "web");
    assert_eq!(fill("{.tasks[x]}"), "");
    assert_eq!(fill("a { b"), "a { b");
    assert_eq!(fill("plain"), "plain");
    assert_eq!(
        fill("{.tasks[0].containers[1].env}"),
        "{\"?\":\"\",\"A\":\"1\"}"
    );
    assert!(!is_readable("{.tasks[}"));
}

#[test]
fn json_values_are_read() {
    let mut entries = Vec::new();
    put(&mut entries, "b", array(vec![Json::Null, Json::Int(2)]));
    put(&mut entries, "a", string("x"));
    put(&mut entries, "b2", Json::Bool(true));
    let v = object(entries);
    assert!(matches!(v.get("a"), Some(Json::Str(s)) if s == "x"));
    assert!(matches!(v.get("b").unwrap().at(1), Some(Json::Int(2))));
    assert!(v.get("b").unwrap().at(2).is_none());
    assert!(v.get("c").is_none());
    assert!(Json::Null.get("a").is_none());
}

fn summary(running: i32, desired: i32, pending: i32) -> ServiceSummary {
    ServiceSummary {
        running_count: running,
        desired_count: desired,
        pending_count: pending,
        status: Some("ACTIVE".to_string()),
        deployment: Some(FirstDeployment {
            task_definition: Some("td:1".to_string()),
            capacity_provider: Some("FARGATE_SPOT".to_string()),
        }),
    }
}

fn status(running: i32, desired: i32, pending: i32) -> String {
    let lookup = ServiceLookup::Found(summary(running, desired, pending));
    service_row("n", "c/s", &lookup, &None).unwrap().status
}

#[test]
fn a_service_has_a_status() {
    assert_eq!(status(1, 0, 0), "STOPPED");
    assert_eq!(status(2, 2, 0), "RUNNING");
    assert_eq!(status(1, 2, 1), "PENDING(1)");
    assert_eq!(status(1, 2, 0), "PARTIAL(1/2)");
    assert_eq!(status(3, 2, 0), "ACTIVE");
}

#[test]
fn a_service_has_a_row() {
    let found = ServiceLookup::Found(summary(2, 2, 0));
    assert_eq!(wanted_definition(&summary(2, 2, 0)).as_deref(), Some("td:1"));
    let row = service_row("n", "c/s", &found, &Some(Some(definition("awslogs")))).unwrap();
    assert_eq!(row.cpu, "256");
    assert_eq!(row.memory, "512");
    assert_eq!(row.capacity, "FARGATE_SPOT");
    assert_eq!(row.image, "app:1");
    assert_eq!(row.tasks, 2);
    let row = service_row("n", "c/s", &found, &Some(None)).unwrap();
    assert_eq!((row.cpu.as_str(), row.capacity.as_str()), ("-", "FARGATE_SPOT"));
    let row = service_row("n", "c/s", &found, &None).unwrap();
    assert_eq!((row.cpu.as_str(), row.capacity.as_str()), ("-", "-"));
    for (target, lookup, want) in [
        ("c", ServiceLookup::Failed, "INVALID"),
        ("c/s", ServiceLookup::NotFound, "NOT FOUND"),
        ("c/s", ServiceLookup::Failed, "ERROR"),
    ] {
        let row = service_row("n", target, &lookup, &None).unwrap();
        assert_eq!(row.status, want);
        assert_eq!(row.tasks, 0);
    }
}

#[test]
fn images_are_shortened() {
    assert_eq!(shown_image("repo/app:1").as_deref(), Some("app:1"));
    let long = "a".repeat(31);
    assert_eq!(shown_image(&long).as_deref(), Some(&long[..30]));
    let split = format!("{}é", "a".repeat(29));
    assert_eq!(shown_image(&split), None);
}

#[test]
fn a_status_has_a_colour() {
    assert_eq!(colorize_status("RUNNING"), "\x1b[32mRUNNING     \x1b[0m");
    assert_eq!(colorize_status("PENDING(2)"), "\x1b[33mPENDING(2)  \x1b[0m");
    assert_eq!(colorize_status("ERROR"), "\x1b[31mERROR       \x1b[0m");
    assert_eq!(colorize_status("DRAINING"), "\x1b[0mDRAINING    \x1b[0m");
}

fn row(name: &str, tasks: usize) -> ServiceRow {
    ServiceRow {
        name: name.to_string(),
        status: "RUNNING".to_string(),
        cpu: "256".to_string(),
        memory: "512".to_string(),
        capacity: "FARGATE".to_string(),
        image: "app:1".to_string(),
        tasks,
    }
}

#[test]
fn rows_make_a_table() {
    let lines = table_lines(&vec![row("web", 2)]);
    assert_eq!(
        lines,
        vec![
            format!(
                "{:<15} {:<12} {:<6} {:<6} {:<15} {:<30} {:<5}",
                "NAME", "STATUS", "CPU", "MEM", "CAPACITY", "IMAGE", "TASKS"
            ),
            format!(
                "{:<15} \x1b[32m{:<12}\x1b[0m {:<6} {:<6} {:<15} {:<30} {}",
                "web", "RUNNING", "256", "512", "FARGATE", "app:1", 2
            ),
        ]
    );
    assert!(same_rows(&vec![row("a", 1)], &vec![row("a", 1)]));
    assert!(!same_rows(&vec![row("a", 1)], &vec![row("a", 2)]));
    assert!(!same_rows(&vec![row("a", 1)], &Vec::new()));
}

#[test]
fn equal_keys_stay_as_they_stand() {
    let keys: Vec<String> = ["b", "a", "b", "", "a"].iter().map(|s| s.to_string()).collect();
    assert_eq!(sorted_places(&keys), vec![3, 1, 4, 0, 2]);
}

#[test]
fn names_are_ordered_without_regard_to_case() {
    let mut cfg = Config::default();
    for name in ["b", "Ä", "A", "C"] {
        cfg.set_alias(name, "c/s");
    }
    let names: Vec<&str> =
        table_order(&cfg).into_iter().map(|i| cfg.aliases.key_at(i)).collect();
    assert_eq!(names, vec!["A", "b", "C", "Ä"]);
}
