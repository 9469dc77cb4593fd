use ecsctl::apply::{
    ContainerSpec, DependsOn, DependsOnCondition, EfsVolumeSpec, LinuxParameters, Metadata,
    MountPointSpec, ServiceSpec, Spec, VolumeSpec,
};
use ecsctl::deployment::{find_primary, progress, Deployment};
use ecsctl::export::{container_to_spec, volume_to_spec};
use ecsctl::strmap::StrMap;
use ecsctl::task::{
    build_container_def, build_service_request, build_task_definition, build_volume,
    service_active, single_container, DefineProblem,
};

fn flat() -> ServiceSpec {
    let mut env = StrMap::new();
    env.insert("B".to_string(), "2".to_string());
    env.insert("A".to_string(), "1".to_string());
    ServiceSpec {
        api_version: None,
        kind: None,
        metadata: Metadata { name: "svc".to_string(), cluster: "cl".to_string() },
        spec: Spec {
            image: "nginx".to_string(),
            cpu: "256".to_string(),
            memory: "512".to_string(),
            arch: "ARM64".to_string(),
            capacity: "FARGATE".to_string(),
            desired_count: 3,
            exec_enabled: true,
            env,
            secrets: StrMap::new(),
            log_group: Some("/ecs/svc".to_string()),
            execution_role_arn: Some("er".to_string()),
            task_role_arn: None,
            subnets: Some(vec!["s1".to_string()]),
            security_groups: None,
            assign_public_ip: true,
            container_name: None,
            port: 80,
            command: Some(vec!["run".to_string()]),
            containers: None,
            volumes: Vec::new(),
        },
    }
}

fn full() -> ContainerSpec {
    let mut mount_points = StrMap::new();
    mount_points.insert("/b".to_string(), MountPointSpec::Volume("v".to_string()));
    mount_points.insert(
        "/a".to_string(),
        MountPointSpec::Detailed { source_volume: "w".to_string(), read_only: true },
    );
    let mut secrets = StrMap::new();
    secrets.insert("KEY".to_string(), "arn:aws:ssm:x".to_string());
    ContainerSpec {
        name: "app".to_string(),
        image: "app:1".to_string(),
        essential: true,
        port: 8080,
        command: None,
        entry_point: Some(vec!["/bin/sh".to_string(), "-c".to_string()]),
        env: StrMap::new(),
        secrets,
        log_group: Some("/ecs/app".to_string()),
        user: Some("1000".to_string()),
        readonly_root_filesystem: true,
        depends_on: vec![DependsOn {
            container_name: "init".to_string(),
            condition: DependsOnCondition::Success,
        }],
        linux_parameters: Some(LinuxParameters { capabilities_drop: vec!["ALL".to_string()] }),
        mount_points,
    }
}

#[test]
fn a_container_is_defined() {
    let cd = build_container_def(&full(), "svc", "eu-west-1").unwrap();
    assert_eq!(cd.name.as_deref(), Some("app"));
    assert_eq!(cd.image.as_deref(), Some("app:1"));
    assert_eq!(cd.essential, Some(true));
    assert_eq!(cd.command, None);
    assert_eq!(cd.user.as_deref(), Some("1000"));
    assert_eq!(cd.readonly_root_filesystem, Some(true));
    assert_eq!(cd.depends_on[0].condition.as_str(), "SUCCESS");
    let caps = cd.linux_parameters.as_ref().unwrap().capabilities.as_ref().unwrap();
    assert_eq!(caps.dropped, vec!["ALL".to_string()]);
    assert!(caps.added.is_empty());
    assert_eq!(cd.mount_points[0].container_path.as_deref(), Some("/a"));
    assert_eq!(cd.mount_points[0].read_only, Some(true));
    assert_eq!(cd.mount_points[1].read_only, Some(false));
    assert_eq!(cd.port_mappings[0].container_port, Some(8080));
    assert_eq!(cd.port_mappings[0].protocol.as_deref(), Some("tcp"));
    assert_eq!(cd.secrets[0].value_from, "arn:aws:ssm:x");
    let lc = cd.log_configuration.as_ref().unwrap();
    assert_eq!(lc.log_driver, "awslogs");
    let options = lc.options.as_ref().unwrap();
    assert_eq!(options.get("awslogs-group").map(String::as_str), Some("/ecs/app"));
    assert_eq!(options.get("awslogs-region").map(String::as_str), Some("eu-west-1"));
    assert_eq!(options.get("awslogs-stream-prefix").map(String::as_str), Some("svc"));
}

#[test]
fn a_container_comes_back_from_its_definition() {
    let cd = build_container_def(&full(), "svc", "eu-west-1").unwrap();
    let cs = container_to_spec(&cd).unwrap();
    assert_eq!(cs.name, "app");
    assert_eq!(cs.port, 8080);
    assert_eq!(cs.entry_point, full().entry_point);
    assert_eq!(cs.log_group.as_deref(), Some("/ecs/app"));
    assert_eq!(cs.depends_on[0].condition, DependsOnCondition::Success);
    assert!(cs.mount_points.get("/a").unwrap().read_only());
    assert_eq!(cs.mount_points.get("/b").unwrap().source_volume(), "v");
    assert_eq!(cs.secrets.get("KEY").map(String::as_str), Some("arn:aws:ssm:x"));
}

#[test]
fn a_healthy_dependency_cannot_be_defined() {
    let mut cs = full();
    cs.depends_on[0].condition = DependsOnCondition::Healthy;
    let e = build_container_def(&cs, "svc", "r").unwrap_err();
    assert_eq!(e.kind, DefineProblem::HealthyDependency);
    assert_eq!(
        e.to_string(),
        "container 'app' dependsOn 'init' uses condition HEALTHY, which is not yet supported (no way to configure the required healthCheck)"
    );
}

#[test]
fn a_single_container_has_a_default_name() {
    let s = flat();
    let cs = single_container(&s.spec);
    assert_eq!(cs.name, "app");
    assert_eq!(cs.image, "nginx");
    assert!(cs.essential && cs.user.is_none());
    assert_eq!(cs.port, 80);
    assert_eq!(cs.env.key_at(0), "A");
}

#[test]
fn a_task_is_defined() {
    let td = build_task_definition(&flat(), "eu-west-1").unwrap();
    assert_eq!(td.family.as_deref(), Some("svc"));
    assert_eq!(td.cpu.as_deref(), Some("256"));
    assert_eq!(td.network_mode.as_deref(), Some("awsvpc"));
    assert_eq!(td.requires_compatibilities, vec!["FARGATE".to_string()]);
    assert_eq!(td.cpu_architecture.as_deref(), Some("ARM64"));
    assert_eq!(td.operating_system_family.as_deref(), Some("LINUX"));
    assert_eq!(td.container_definitions.len(), 1);
    assert_eq!(td.container_definitions[0].environment[0].name.as_deref(), Some("A"));
    assert_eq!(td.execution_role_arn.as_deref(), Some("er"));
    assert!(td.task_role_arn.is_none());
    let mut s = flat();
    s.spec.containers = Some(vec![full(), single_container(&flat().spec)]);
    assert_eq!(build_task_definition(&s, "r").unwrap().container_definitions.len(), 2);
}

#[test]
fn volumes_are_defined() {
    let v = build_volume(&VolumeSpec {
        name: "v".to_string(),
        efs: Some(EfsVolumeSpec {
            file_system_id: "fs".to_string(),
            root_directory: None,
            transit_encryption: Some("ENABLED".to_string()),
            access_point_id: None,
            iam: None,
        }),
        configured_at_launch: false,
    });
    assert_eq!(v.configured_at_launch, None);
    let efs = v.efs_volume_configuration.as_ref().unwrap();
    assert_eq!(efs.file_system_id, "fs");
    assert!(efs.authorization_config.is_none());
    assert_eq!(volume_to_spec(&v).unwrap().efs.unwrap().file_system_id, "fs");
    let v = build_volume(&VolumeSpec {
        name: "v".to_string(),
        efs: None,
        configured_at_launch: true,
    });
    assert_eq!(v.configured_at_launch, Some(true));
    assert!(volume_to_spec(&v).is_err());
}

#[test]
fn a_service_is_asked_for() {
    let r = build_service_request(&flat(), "arn:td", false);
    assert_eq!(r.service, "svc");
    assert_eq!(r.cluster, "cl");
    assert_eq!(r.task_definition, "arn:td");
    assert_eq!(r.desired_count, 3);
    assert!(r.enable_execute_command);
    assert_eq!(r.launch_type.as_deref(), Some("FARGATE"));
    let n = r.network.unwrap();
    assert_eq!(n.subnets, vec!["s1".to_string()]);
    assert!(n.security_groups.is_empty());
    assert_eq!(n.assign_public_ip.as_deref(), Some("ENABLED"));
    assert!(r.capacity_provider_strategy.is_empty());

    let mut s = flat();
    s.spec.capacity = "FARGATE_SPOT".to_string();
    let r = build_service_request(&s, "arn:td", false);
    assert!(r.launch_type.is_none());
    assert_eq!(r.capacity_provider_strategy[0].capacity_provider, "FARGATE_SPOT");
    assert_eq!(r.capacity_provider_strategy[0].weight, 1);

    let r = build_service_request(&flat(), "arn:td", true);
    assert!(r.launch_type.is_none() && r.network.is_none());
}

#[test]
fn an_active_service_is_recognised() {
    assert!(service_active(&Some(Some("ACTIVE".to_string()))));
    assert!(!service_active(&Some(Some("INACTIVE".to_string()))));
    assert!(!service_active(&Some(None)));
    assert!(!service_active(&None));
}

fn deployment(status: &str, running: i32, desired: i32, state: Option<&str>) -> Deployment {
    Deployment {
        id: None,
        status: Some(status.to_string()),
        running_count: running,
        desired_count: desired,
        rollout_state: state.map(|s| s.to_string()),
    }
}

#[test]
fn one_deployment_comes_to_rest() {
    let p = progress(&vec![deployment("PRIMARY", 2, 2, None)]);
    assert!(p.done);
    assert_eq!(p.line.as_deref(), Some("\r  ✅ 2/2 tasks running                    "));
    let p = progress(&vec![deployment("PRIMARY", 1, 2, None)]);
    assert!(!p.done);
    assert_eq!(p.line.as_deref(), Some("\r  🚀 1/2 tasks running"));
    let p = progress(&vec![deployment("PRIMARY", 0, 0, Some("COMPLETED"))]);
    assert!(p.done);
    assert_eq!(
        p.line.as_deref(),
        Some("\r  ✅ scaled to 0 (deployment complete)                    ")
    );
    assert!(!progress(&vec![deployment("PRIMARY", 0, 0, Some("IN_PROGRESS"))]).done);
}

#[test]
fn several_deployments_come_to_rest() {
    let old = deployment("ACTIVE", 1, 0, None);
    let list = vec![old, deployment("PRIMARY", 2, 2, None)];
    assert_eq!(find_primary(&list), Some(1));
    let p = progress(&list);
    assert!(!p.done);
    assert_eq!(
        p.line.as_deref(),
        Some("\r  🔄 new: 2/2 running, draining 1 old task(s)...")
    );
    let list = vec![deployment("DRAINING", 0, 0, None), deployment("PRIMARY", 2, 2, None)];
    let p = progress(&list);
    assert!(p.done);
    assert_eq!(p.line.as_deref(), Some("\r  ✅ 2/2 tasks running                    "));
    let p = progress(&Vec::new());
    assert!(!p.done && p.line.is_none());
}
