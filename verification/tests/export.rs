use ecsctl::apply::{DependsOnCondition, Metadata, ServiceSpec, Spec, VolumeSpec};
use ecsctl::ecs::{
    ContainerCondition, ContainerDefinition, ContainerDependency, EfsAuthorization,
    EfsVolumeConfiguration, KernelCapabilities, KeyValuePair, LinuxSettings, LogConfiguration,
    MountPoint, Network, PortMapping, Secret, ServiceDescription, TaskDefinition, Volume,
};
use ecsctl::export::{
    build_spec, container_to_spec, container_uses_new_fields, dropped_dependencies, list_warnings,
    task_definition_of, volume_to_spec, ExportProblem,
};
use ecsctl::strmap::StrMap;
use ecsctl::task::build_task_definition;

fn plain() -> ContainerDefinition {
    ContainerDefinition {
        name: Some("app".to_string()),
        image: Some("app:latest".to_string()),
        essential: None,
        command: None,
        entry_point: None,
        user: None,
        readonly_root_filesystem: None,
        depends_on: Vec::new(),
        linux_parameters: None,
        mount_points: Vec::new(),
        port_mappings: Vec::new(),
        environment: Vec::new(),
        secrets: Vec::new(),
        log_configuration: None,
    }
}

fn waiting(name: &str, condition: ContainerCondition) -> Vec<ContainerDependency> {
    vec![ContainerDependency { container_name: name.to_string(), condition }]
}

fn capabilities(added: &[&str], dropped: &[&str]) -> Option<LinuxSettings> {
    Some(LinuxSettings {
        capabilities: Some(KernelCapabilities {
            added: added.iter().map(|s| s.to_string()).collect(),
            dropped: dropped.iter().map(|s| s.to_string()).collect(),
        }),
    })
}

fn mount(volume: &str, path: &str, read_only: Option<bool>) -> Vec<MountPoint> {
    vec![MountPoint {
        source_volume: Some(volume.to_string()),
        container_path: Some(path.to_string()),
        read_only,
    }]
}

#[test]
fn test_plain_container_does_not_use_new_fields() {
    let cd = ContainerDefinition { essential: Some(true), ..plain() };
    assert!(!container_uses_new_fields(&cd));
}

#[test]
fn test_user_triggers_containers_form() {
    let cd = ContainerDefinition { user: Some("1000".to_string()), ..plain() };
    assert!(container_uses_new_fields(&cd));
}

#[test]
fn test_readonly_root_filesystem_triggers_containers_form() {
    let cd = ContainerDefinition { readonly_root_filesystem: Some(true), ..plain() };
    assert!(container_uses_new_fields(&cd));
}

#[test]
fn test_entry_point_triggers_containers_form() {
    let cd = ContainerDefinition { entry_point: Some(vec!["/bin/sh".to_string()]), ..plain() };
    assert!(container_uses_new_fields(&cd));
}

#[test]
fn test_depends_on_triggers_containers_form() {
    let cd = ContainerDefinition {
        depends_on: waiting("init", ContainerCondition::Success),
        ..plain()
    };
    assert!(container_uses_new_fields(&cd));
}

#[test]
fn test_linux_parameters_triggers_containers_form() {
    let cd = ContainerDefinition { linux_parameters: capabilities(&[], &["ALL"]), ..plain() };
    assert!(container_uses_new_fields(&cd));
}

#[test]
fn exported_container_spec_round_trips_through_validate() {
    let init = ContainerDefinition {
        name: Some("init-perms".to_string()),
        essential: Some(false),
        user: Some("0".to_string()),
        entry_point: Some(vec!["/bin/sh".to_string(), "-c".to_string()]),
        command: Some(vec!["chown 1000:1000 /workspace".to_string()]),
        mount_points: mount("workspace", "/workspace", None),
        ..plain()
    };
    let app = ContainerDefinition {
        essential: Some(true),
        user: Some("1000".to_string()),
        readonly_root_filesystem: Some(true),
        depends_on: waiting("init-perms", ContainerCondition::Success),
        linux_parameters: capabilities(&[], &["ALL"]),
        mount_points: mount("workspace", "/workspace", Some(true)),
        ..plain()
    };
    let containers = vec![
        container_to_spec(&init).expect("init container should convert"),
        container_to_spec(&app).expect("app container should convert"),
    ];
    let spec = ServiceSpec {
        api_version: Some("ecsctl/v1".to_string()),
        kind: Some("Service".to_string()),
        metadata: Metadata { name: "svc".to_string(), cluster: "cl".to_string() },
        spec: Spec {
            image: String::new(),
            cpu: "1024".to_string(),
            memory: "2048".to_string(),
            arch: "X86_64".to_string(),
            capacity: "FARGATE".to_string(),
            desired_count: 1,
            exec_enabled: false,
            env: StrMap::new(),
            secrets: StrMap::new(),
            log_group: None,
            execution_role_arn: None,
            task_role_arn: None,
            subnets: None,
            security_groups: None,
            assign_public_ip: false,
            container_name: None,
            port: 0,
            command: None,
            containers: Some(containers),
            volumes: vec![VolumeSpec {
                name: "workspace".to_string(),
                efs: None,
                configured_at_launch: false,
            }],
        },
    };
    spec.validate().expect("an exported spec must be one apply accepts");

    let out = spec.spec.containers.as_ref().unwrap();
    let app_out = out.iter().find(|c| c.name == "app").unwrap();
    assert_eq!(app_out.user.as_deref(), Some("1000"));
    assert!(app_out.readonly_root_filesystem);
    assert_eq!(
        app_out.linux_parameters.as_ref().unwrap().capabilities_drop,
        vec!["ALL".to_string()]
    );
    assert_eq!(app_out.depends_on[0].container_name, "init-perms");
    assert!(
        app_out.mount_points.get("/workspace").unwrap().read_only(),
        "readOnly must survive export"
    );
}

#[test]
fn healthy_condition_is_dropped_not_carried_into_an_unappliable_spec() {
    let cd = ContainerDefinition {
        essential: Some(true),
        depends_on: waiting("sidecar", ContainerCondition::Healthy),
        ..plain()
    };
    let spec = container_to_spec(&cd).expect("should convert, dropping the condition");
    assert!(
        spec.depends_on.is_empty(),
        "HEALTHY must be dropped rather than emitted as something apply rejects"
    );
    assert_eq!(
        dropped_dependencies(&cd),
        vec!["  \u{26a0}\u{fe0f}  dropping dependsOn app -> sidecar (condition HEALTHY): not representable in this spec, so the exported YAML does not preserve that startup ordering".to_string()]
    );
}

#[test]
fn added_capabilities_refuse_the_export() {
    let cd = ContainerDefinition {
        linux_parameters: capabilities(&["SYS_PTRACE"], &[]),
        ..plain()
    };
    assert!(
        container_to_spec(&cd).is_err(),
        "capabilities.add is not representable, so export must refuse rather than drop it"
    );
    assert_eq!(
        container_to_spec(&cd).unwrap_err().to_string(),
        "container 'app' adds Linux capabilities (SYS_PTRACE), which this spec cannot represent. Export refused rather than silently dropping them"
    );
}

#[test]
fn test_mount_points_trigger_containers_form() {
    let cd = ContainerDefinition { mount_points: mount("data", "/data", None), ..plain() };
    assert!(container_uses_new_fields(&cd));
}

#[test]
fn an_unknown_capability_refuses_the_export() {
    let cd = ContainerDefinition { linux_parameters: capabilities(&[], &["ALL", "NOPE"]), ..plain() };
    let e = container_to_spec(&cd).unwrap_err();
    assert_eq!(e.kind, ExportProblem::UnknownCapability);
    assert!(e.to_string().contains("drops Linux capability 'NOPE'"));
}

#[test]
fn a_container_without_anything_gets_defaults() {
    let cd = ContainerDefinition { name: None, image: None, ..plain() };
    let cs = container_to_spec(&cd).unwrap();
    assert_eq!(cs.name, "app");
    assert_eq!(cs.image, "?");
    assert!(cs.essential);
    assert_eq!(cs.port, 0);
    assert!(cs.command.is_none() && cs.entry_point.is_none() && cs.log_group.is_none());
}

#[test]
fn what_a_container_says_is_carried_over() {
    let mut options = StrMap::new();
    options.insert("awslogs-group".to_string(), "/ecs/app".to_string());
    let cd = ContainerDefinition {
        essential: Some(false),
        command: Some(vec!["run".to_string()]),
        entry_point: Some(Vec::new()),
        depends_on: vec![
            ContainerDependency {
                container_name: "a".to_string(),
                condition: ContainerCondition::Start,
            },
            ContainerDependency {
                container_name: "b".to_string(),
                condition: ContainerCondition::Other("READY".to_string()),
            },
            ContainerDependency {
                container_name: "c".to_string(),
                condition: ContainerCondition::Complete,
            },
        ],
        port_mappings: vec![
            PortMapping { container_port: Some(80), protocol: None },
            PortMapping { container_port: Some(81), protocol: None },
        ],
        environment: vec![
            KeyValuePair { name: Some("A".to_string()), value: Some("1".to_string()) },
            KeyValuePair { name: Some("B".to_string()), value: None },
            KeyValuePair { name: Some("A".to_string()), value: Some("2".to_string()) },
        ],
        secrets: vec![Secret { name: "S".to_string(), value_from: "arn:x".to_string() }],
        log_configuration: Some(LogConfiguration {
            log_driver: "awslogs".to_string(),
            options: Some(options),
        }),
        ..plain()
    };
    let cs = container_to_spec(&cd).unwrap();
    assert!(!cs.essential);
    assert_eq!(cs.port, 80);
    assert_eq!(cs.command, Some(vec!["run".to_string()]));
    assert_eq!(cs.entry_point, None);
    assert_eq!(cs.env.len(), 1);
    assert_eq!(cs.env.get("A").map(String::as_str), Some("2"));
    assert_eq!(cs.secrets.get("S").map(String::as_str), Some("arn:x"));
    assert_eq!(cs.log_group.as_deref(), Some("/ecs/app"));
    assert_eq!(cs.depends_on.len(), 2);
    assert_eq!(cs.depends_on[1].container_name, "c");
    assert_eq!(cs.depends_on[1].condition, DependsOnCondition::Complete);
}

fn volume(name: &str) -> Volume {
    Volume {
        name: Some(name.to_string()),
        has_docker_configuration: false,
        has_fsx_configuration: false,
        host_source_path: None,
        configured_at_launch: None,
        efs_volume_configuration: None,
    }
}

fn efs() -> EfsVolumeConfiguration {
    EfsVolumeConfiguration {
        file_system_id: "fs-1".to_string(),
        root_directory: Some("/".to_string()),
        transit_encryption: Some("ENABLED".to_string()),
        transit_encryption_port: None,
        authorization_config: Some(EfsAuthorization {
            access_point_id: Some("ap".to_string()),
            iam: Some("DISABLED".to_string()),
        }),
    }
}

#[test]
fn a_file_system_is_carried_over() {
    let v = Volume { efs_volume_configuration: Some(efs()), ..volume("data") };
    let s = volume_to_spec(&v).unwrap();
    let e = s.efs.unwrap();
    assert_eq!(e.file_system_id, "fs-1");
    assert_eq!(e.root_directory.as_deref(), Some("/"));
    assert_eq!(e.transit_encryption.as_deref(), Some("ENABLED"));
    assert_eq!(e.access_point_id.as_deref(), Some("ap"));
    assert_eq!(e.iam.as_deref(), Some("DISABLED"));
}

#[test]
fn volumes_that_cannot_be_expressed_are_refused() {
    let kind = |v: Volume| volume_to_spec(&v).unwrap_err().kind;
    assert_eq!(kind(Volume { name: None, ..volume("x") }), ExportProblem::UnnamedVolume);
    assert_eq!(
        kind(Volume { has_docker_configuration: true, ..volume("x") }),
        ExportProblem::DockerVolume
    );
    assert_eq!(kind(Volume { has_fsx_configuration: true, ..volume("x") }), ExportProblem::FsxVolume);
    assert_eq!(
        kind(Volume { host_source_path: Some("/x".to_string()), ..volume("x") }),
        ExportProblem::HostVolume
    );
    assert_eq!(
        kind(Volume { configured_at_launch: Some(true), ..volume("x") }),
        ExportProblem::ConfiguredAtLaunch
    );
    let with_port = EfsVolumeConfiguration { transit_encryption_port: Some(1), ..efs() };
    assert_eq!(
        kind(Volume { efs_volume_configuration: Some(with_port), ..volume("x") }),
        ExportProblem::EncryptionPort
    );
    let odd = EfsVolumeConfiguration { transit_encryption: Some("MAYBE".to_string()), ..efs() };
    let e = volume_to_spec(&Volume { efs_volume_configuration: Some(odd), ..volume("x") });
    assert_eq!(
        e.unwrap_err().to_string(),
        "volume 'x' has an EFS setting this spec does not model: 'MAYBE'"
    );
}

fn described() -> ServiceDescription {
    ServiceDescription {
        task_definition: Some("arn:td".to_string()),
        desired_count: 2,
        enable_execute_command: true,
        network: Some(Network {
            subnets: vec!["s1".to_string()],
            security_groups: vec!["g1".to_string()],
            assign_public_ip: Some("ENABLED".to_string()),
        }),
        capacity_providers: vec!["FARGATE_SPOT".to_string()],
    }
}

fn definition(containers: Vec<ContainerDefinition>) -> TaskDefinition {
    TaskDefinition {
        family: Some("svc".to_string()),
        cpu: Some("512".to_string()),
        memory: Some("1024".to_string()),
        network_mode: None,
        requires_compatibilities: Vec::new(),
        cpu_architecture: Some("ARM64".to_string()),
        operating_system_family: None,
        container_definitions: containers,
        volumes: Vec::new(),
        execution_role_arn: Some("er".to_string()),
        task_role_arn: None,
    }
}

#[test]
fn one_plain_container_is_exported_directly() {
    let spec = build_spec("cl", "svc", &described(), &definition(vec![plain()])).unwrap();
    assert_eq!(spec.metadata.name, "svc");
    assert_eq!(spec.metadata.cluster, "cl");
    assert_eq!(spec.spec.image, "app:latest");
    assert_eq!(spec.spec.container_name.as_deref(), Some("app"));
    assert!(spec.spec.containers.is_none());
    assert_eq!(spec.spec.cpu, "512");
    assert_eq!(spec.spec.arch, "ARM64");
    assert_eq!(spec.spec.capacity, "FARGATE_SPOT");
    assert_eq!(spec.spec.desired_count, 2);
    assert!(spec.spec.exec_enabled && spec.spec.assign_public_ip);
    assert_eq!(spec.spec.subnets, Some(vec!["s1".to_string()]));
    assert_eq!(spec.spec.execution_role_arn.as_deref(), Some("er"));
    assert!(spec.validate().is_ok());
}

#[test]
fn several_containers_are_exported_as_a_list() {
    let connect = ContainerDefinition {
        name: Some("ecs-service-connect-1".to_string()),
        ..plain()
    };
    let side = ContainerDefinition {
        name: Some("side".to_string()),
        depends_on: waiting("app", ContainerCondition::Healthy),
        ..plain()
    };
    let td = definition(vec![connect, plain(), side]);
    let spec = build_spec("cl", "svc", &described(), &td).unwrap();
    let list = spec.spec.containers.as_ref().unwrap();
    assert_eq!(list.len(), 2);
    assert_eq!(list[0].name, "app");
    assert_eq!(spec.spec.image, "");
    assert!(spec.spec.container_name.is_none());
    assert_eq!(list_warnings(&td).len(), 1);
    assert!(spec.validate().is_ok());
}

#[test]
fn a_service_that_cannot_be_exported() {
    let e = build_spec("cl", "svc", &described(), &definition(Vec::new())).unwrap_err();
    assert_eq!(e.kind, ExportProblem::NoAppContainer);
    assert_eq!(e.to_string(), "no app container");
    assert_eq!(task_definition_of(&Vec::new()).unwrap_err().to_string(), "service not found");
    let none = ServiceDescription { task_definition: None, ..described() };
    assert_eq!(task_definition_of(&vec![none]).unwrap_err().to_string(), "no task definition");
    assert_eq!(task_definition_of(&vec![described()]).unwrap(), "arn:td");
}

#[test]
fn an_exported_service_is_registered_as_it_was() {
    let hardened = ContainerDefinition {
        essential: Some(true),
        user: Some("1000".to_string()),
        readonly_root_filesystem: Some(true),
        linux_parameters: capabilities(&[], &["ALL"]),
        mount_points: mount("data", "/data", Some(true)),
        ..plain()
    };
    let mut td = definition(vec![hardened]);
    td.volumes = vec![Volume { efs_volume_configuration: Some(efs()), ..volume("data") }];
    let spec = build_spec("cl", "svc", &described(), &td).unwrap();
    assert!(spec.validate().is_ok());
    let again = build_task_definition(&spec, "eu-west-1").unwrap();
    let cd = &again.container_definitions[0];
    assert_eq!(cd.user.as_deref(), Some("1000"));
    assert_eq!(cd.readonly_root_filesystem, Some(true));
    assert_eq!(cd.mount_points[0].read_only, Some(true));
    assert_eq!(
        again.volumes[0].efs_volume_configuration.as_ref().unwrap().file_system_id,
        "fs-1"
    );
}

#[test]
fn an_export_of_an_export_is_the_same() {
    let side = ContainerDefinition {
        name: Some("side".to_string()),
        essential: Some(false),
        mount_points: mount("data", "/data", Some(false)),
        ..plain()
    };
    let main = ContainerDefinition {
        depends_on: waiting("side", ContainerCondition::Complete),
        ..plain()
    };
    let mut td = definition(vec![side, main]);
    td.volumes = vec![volume("data")];
    let first = build_spec("cl", "svc", &described(), &td).unwrap();
    assert!(first.validate().is_ok());
    let again = build_task_definition(&first, "eu-west-1").unwrap();
    let second = build_spec("cl", "svc", &described(), &again).unwrap();
    assert!(second.validate().is_ok());
    assert_eq!(format!("{first:?}"), format!("{second:?}"));
}
