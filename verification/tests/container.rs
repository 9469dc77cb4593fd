use ecsctl::container::{find_app_container, find_main_container};
use ecsctl::ecs::{ContainerCondition, ContainerDefinition, ContainerDependency, LogConfiguration};

fn make_container(
    name: &str,
    essential: bool,
    has_log: bool,
    has_depends: bool,
) -> ContainerDefinition {
    let mut depends_on = Vec::new();
    if has_depends {
        depends_on.push(ContainerDependency {
            container_name: "main".to_string(),
            condition: ContainerCondition::Success,
        });
    }
    ContainerDefinition {
        name: Some(name.to_string()),
        image: None,
        essential: Some(essential),
        command: None,
        entry_point: None,
        user: None,
        readonly_root_filesystem: None,
        depends_on,
        linux_parameters: None,
        mount_points: Vec::new(),
        port_mappings: Vec::new(),
        environment: Vec::new(),
        secrets: Vec::new(),
        log_configuration: if has_log {
            Some(LogConfiguration { log_driver: "awslogs".to_string(), options: None })
        } else {
            None
        },
    }
}

#[test]
fn picks_essential_over_sidecar() {
    let containers = vec![
        make_container("s3-restore", false, true, false),
        make_container("app", true, true, false),
        make_container("s3-sync", false, true, false),
    ];
    let main = find_main_container(&containers).unwrap();
    assert_eq!(main.name.as_deref(), Some("app"));
}

#[test]
fn skips_infra_containers() {
    let containers = vec![
        make_container("ecs-service-connect-proxy", true, true, false),
        make_container("myapp", true, true, false),
    ];
    let main = find_main_container(&containers).unwrap();
    assert_eq!(main.name.as_deref(), Some("myapp"));
}

#[test]
fn picks_the_waiting_app_over_an_init_container_and_a_network_sidecar() {
    let containers = vec![
        make_container("init-perms", false, true, false),
        make_container("tailscale", true, true, false),
        make_container("openab-pty", true, true, true),
    ];
    let main = find_main_container(&containers).unwrap();
    assert_eq!(main.name.as_deref(), Some("openab-pty"));
}

#[test]
fn a_nonessential_helper_with_a_dependency_does_not_win() {
    let containers = vec![
        make_container("post-start-hook", false, true, true),
        make_container("app", true, true, false),
    ];
    let main = find_main_container(&containers).unwrap();
    assert_eq!(main.name.as_deref(), Some("app"));
}

#[test]
fn single_container() {
    let containers = vec![make_container("worker", true, true, false)];
    let main = find_main_container(&containers).unwrap();
    assert_eq!(main.name.as_deref(), Some("worker"));
}

#[test]
fn prefers_non_init_when_no_essential() {
    let containers = vec![
        make_container("init", false, true, true),
        make_container("app", false, true, false),
    ];
    let main = find_main_container(&containers).unwrap();
    assert_eq!(main.name.as_deref(), Some("app"));
}

#[test]
fn only_known_helpers_give_the_first_of_them() {
    let containers = vec![
        make_container("xray-daemon", false, false, false),
        make_container("envoy", true, true, true),
    ];
    let main = find_main_container(&containers).unwrap();
    assert_eq!(main.name.as_deref(), Some("xray-daemon"));
    assert!(find_main_container(&Vec::new()).is_none());
}

#[test]
fn an_essential_container_with_logs_comes_before_one_without() {
    let containers = vec![
        make_container("a", true, false, false),
        make_container("b", true, true, false),
        make_container("c", false, true, true),
    ];
    assert_eq!(find_main_container(&containers).unwrap().name.as_deref(), Some("b"));
    let containers = vec![
        make_container("a", false, true, true),
        make_container("b", false, false, true),
    ];
    assert_eq!(find_main_container(&containers).unwrap().name.as_deref(), Some("a"));
}

#[test]
fn the_first_container_that_ecs_did_not_add() {
    let containers = vec![
        make_container("ecs-service-connect-abc", true, true, false),
        make_container("tailscale", false, false, false),
        make_container("app", true, true, true),
    ];
    assert_eq!(find_app_container(&containers).unwrap().name.as_deref(), Some("tailscale"));
    assert!(find_app_container(&vec![make_container("ecs-service-connect-x", true, true, false)])
        .is_none());
}
