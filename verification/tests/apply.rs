use ecsctl::apply::{
    default_arch, default_capacity, default_count, default_essential, default_port, ContainerSpec,
    DependsOn, DependsOnCondition, EfsVolumeSpec, LinuxParameters, Metadata, MountPointSpec,
    ServiceSpec, Spec, VolumeSpec,
};
use ecsctl::strmap::StrMap;
use ecsctl::yaml::{load_yaml, set_yaml_field, Yaml};

fn member<'a>(y: &'a Yaml, name: &str) -> Option<&'a Yaml> {
    match y {
        Yaml::Mapping(entries) => entries
            .iter()
            .find(|e| matches!(&e.key, Yaml::Str(k) if k == name))
            .map(|e| &e.value),
        _ => None,
    }
}

fn words(y: &Yaml) -> Option<String> {
    match y {
        Yaml::Str(s) => Some(s.clone()),
        _ => None,
    }
}

fn text(y: &Yaml, name: &str) -> Option<String> {
    member(y, name).and_then(words)
}

fn flag(y: &Yaml, name: &str, other: bool) -> bool {
    match member(y, name) {
        Some(Yaml::Bool(b)) => *b,
        _ => other,
    }
}

fn number(y: &Yaml, name: &str) -> Option<i32> {
    match member(y, name) {
        Some(Yaml::Number(n)) => n.parse().ok(),
        _ => None,
    }
}

fn list<'a>(y: &'a Yaml, name: &str) -> Option<&'a Vec<Yaml>> {
    match member(y, name) {
        Some(Yaml::Sequence(s)) => Some(s),
        _ => None,
    }
}

fn texts(y: &Yaml, name: &str) -> Option<Vec<String>> {
    list(y, name).map(|s| s.iter().filter_map(words).collect())
}

fn text_map(y: &Yaml, name: &str) -> StrMap<String> {
    let mut out = StrMap::new();
    if let Some(Yaml::Mapping(entries)) = member(y, name) {
        for e in entries {
            if let (Yaml::Str(k), Yaml::Str(v)) = (&e.key, &e.value) {
                out.insert(k.clone(), v.clone());
            }
        }
    }
    out
}

fn mounts(y: &Yaml) -> StrMap<MountPointSpec> {
    let mut out = StrMap::new();
    if let Some(Yaml::Mapping(entries)) = member(y, "mountPoints") {
        for e in entries {
            if let Yaml::Str(k) = &e.key {
                let mount = match &e.value {
                    Yaml::Str(v) => MountPointSpec::Volume(v.clone()),
                    other => MountPointSpec::Detailed {
                        source_volume: text(other, "sourceVolume").unwrap(),
                        read_only: flag(other, "readOnly", false),
                    },
                };
                out.insert(k.clone(), mount);
            }
        }
    }
    out
}

fn condition(word: &str) -> Option<DependsOnCondition> {
    [
        DependsOnCondition::Start,
        DependsOnCondition::Complete,
        DependsOnCondition::Success,
        DependsOnCondition::Healthy,
    ]
    .into_iter()
    .find(|c| c.as_str() == word)
}

fn container(y: &Yaml) -> Option<ContainerSpec> {
    let mut depends_on = Vec::new();
    if let Some(all) = list(y, "dependsOn") {
        for d in all {
            depends_on.push(DependsOn {
                container_name: text(d, "containerName")?,
                condition: condition(&text(d, "condition")?)?,
            });
        }
    }
    Some(ContainerSpec {
        name: text(y, "name")?,
        image: text(y, "image")?,
        essential: flag(y, "essential", default_essential()),
        port: number(y, "port").map_or(default_port(), |n| n as u16),
        command: texts(y, "command"),
        entry_point: texts(y, "entryPoint"),
        env: text_map(y, "env"),
        secrets: text_map(y, "secrets"),
        log_group: text(y, "logGroup"),
        user: text(y, "user"),
        readonly_root_filesystem: flag(y, "readonlyRootFilesystem", false),
        depends_on,
        linux_parameters: member(y, "linuxParameters").map(|l| LinuxParameters {
            capabilities_drop: texts(l, "capabilitiesDrop").unwrap_or_default(),
        }),
        mount_points: mounts(y),
    })
}

fn volume(y: &Yaml) -> Option<VolumeSpec> {
    Some(VolumeSpec {
        name: text(y, "name")?,
        efs: match member(y, "efs") {
            Some(e) => Some(EfsVolumeSpec {
                file_system_id: text(e, "fileSystemId")?,
                root_directory: text(e, "rootDirectory"),
                transit_encryption: text(e, "transitEncryption"),
                access_point_id: text(e, "accessPointId"),
                iam: text(e, "iam"),
            }),
            None => None,
        },
        configured_at_launch: flag(y, "configuredAtLaunch", false),
    })
}

/// The specification that a document holds.
fn read(y: &Yaml) -> Option<ServiceSpec> {
    let metadata = member(y, "metadata")?;
    let s = member(y, "spec")?;
    let mut containers = None;
    if let Some(all) = list(s, "containers") {
        containers = Some(all.iter().map(container).collect::<Option<Vec<_>>>()?);
    }
    let mut volumes = Vec::new();
    if let Some(all) = list(s, "volumes") {
        volumes = all.iter().map(volume).collect::<Option<Vec<_>>>()?;
    }
    Some(ServiceSpec {
        api_version: text(y, "apiVersion"),
        kind: text(y, "kind"),
        metadata: Metadata { name: text(metadata, "name")?, cluster: text(metadata, "cluster")? },
        spec: Spec {
            image: text(s, "image").unwrap_or_default(),
            cpu: text(s, "cpu")?,
            memory: text(s, "memory")?,
            arch: text(s, "arch").unwrap_or_else(default_arch),
            capacity: text(s, "capacity").unwrap_or_else(default_capacity),
            desired_count: number(s, "desiredCount").unwrap_or_else(default_count),
            exec_enabled: flag(s, "execEnabled", false),
            env: text_map(s, "env"),
            secrets: text_map(s, "secrets"),
            log_group: text(s, "logGroup"),
            execution_role_arn: text(s, "executionRoleArn"),
            task_role_arn: text(s, "taskRoleArn"),
            subnets: texts(s, "subnets"),
            security_groups: texts(s, "securityGroups"),
            assign_public_ip: flag(s, "assignPublicIp", false),
            container_name: text(s, "containerName"),
            port: number(s, "port").map_or(default_port(), |n| n as u16),
            command: texts(s, "command"),
            containers,
            volumes,
        },
    })
}

fn parse(yaml: &str) -> Option<ServiceSpec> {
    read(&load_yaml(yaml).unwrap())
}

fn minimal_yaml() -> &'static str {
    r#"
apiVersion: ecsctl/v1
kind: Service
metadata:
  name: test-app
  cluster: test-cluster
spec:
  image: nginx:latest
  cpu: "256"
  memory: "512"
"#
}

#[test]
fn test_parse_minimal_spec() {
    let spec: ServiceSpec = parse(minimal_yaml()).unwrap();
    assert_eq!(spec.metadata.name, "test-app");
    assert_eq!(spec.metadata.cluster, "test-cluster");
    assert_eq!(spec.spec.arch, "X86_64");
    assert_eq!(spec.spec.capacity, "FARGATE");
    assert_eq!(spec.spec.desired_count, 1);
}

#[test]
fn test_validate_valid_spec() {
    let spec: ServiceSpec = parse(minimal_yaml()).unwrap();
    assert!(spec.validate().is_ok());
}

#[test]
fn test_validate_invalid_cpu() {
    let yaml = minimal_yaml().replace("\"256\"", "\"123\"");
    let spec: ServiceSpec = parse(&yaml).unwrap();
    assert!(spec.validate().is_err());
}

#[test]
fn test_validate_invalid_memory_for_cpu() {
    let yaml = minimal_yaml().replace("\"512\"", "\"8192\"");
    let spec: ServiceSpec = parse(&yaml).unwrap();
    assert!(spec.validate().is_err());
}

#[test]
fn test_validate_invalid_arch() {
    let yaml = minimal_yaml().replace("cpu: \"256\"", "cpu: \"256\"\n  arch: MIPS");
    let spec: ServiceSpec = parse(&yaml).unwrap();
    assert!(spec.validate().is_err());
}

#[test]
fn test_set_yaml_field_string() {
    let mut val: Yaml = load_yaml(minimal_yaml()).unwrap();
    set_yaml_field(&mut val, "metadata.name", "new-name");
    let spec: ServiceSpec = read(&val).unwrap();
    assert_eq!(spec.metadata.name, "new-name");
}

#[test]
fn test_set_yaml_field_number_stays_string() {
    let mut val: Yaml = load_yaml(minimal_yaml()).unwrap();
    set_yaml_field(&mut val, "spec.cpu", "512");
    let spec: ServiceSpec = read(&val).unwrap();
    assert_eq!(spec.spec.cpu, "512");
}

#[test]
fn test_set_yaml_field_bool() {
    let mut val: Yaml = load_yaml(minimal_yaml()).unwrap();
    set_yaml_field(&mut val, "spec.execEnabled", "true");
    let spec: ServiceSpec = read(&val).unwrap();
    assert!(spec.spec.exec_enabled);
}

#[test]
fn test_parse_multi_container_spec() {
    let yaml = r#"
apiVersion: ecsctl/v1
kind: Service
metadata:
  name: multi-app
  cluster: test-cluster
spec:
  cpu: "512"
  memory: "1024"
  capacity: FARGATE_SPOT
  containers:
    - name: app
      image: nginx:latest
      essential: true
      port: 80
    - name: sidecar
      image: envoy:latest
      essential: false
      port: 9901
"#;
    let spec: ServiceSpec = parse(yaml).unwrap();
    assert_eq!(spec.spec.containers.as_ref().unwrap().len(), 2);
    assert_eq!(spec.spec.containers.as_ref().unwrap()[0].name, "app");
    assert!(spec.spec.containers.as_ref().unwrap()[0].essential);
    assert!(!spec.spec.containers.as_ref().unwrap()[1].essential);
    assert!(spec.validate().is_ok());
}

#[test]
fn test_parse_sidecar_spec_with_depends_on_and_volumes() {
    let yaml = r#"
apiVersion: ecsctl/v1
kind: Service
metadata:
  name: sidecar-app
  cluster: test-cluster
spec:
  cpu: "1024"
  memory: "2048"
  volumes:
    - name: workspace
  containers:
    - name: init-perms
      image: app:latest
      essential: false
      user: "0"
      entryPoint: ["/bin/sh", "-c"]
      command: ["chown 1000:1000 /workspace"]
      mountPoints:
        /workspace: workspace
    - name: app
      image: app:latest
      essential: true
      user: "1000"
      readonlyRootFilesystem: true
      dependsOn:
        - containerName: init-perms
          condition: SUCCESS
      linuxParameters:
        capabilitiesDrop: ["ALL"]
      mountPoints:
        /workspace: workspace
"#;
    let spec: ServiceSpec = parse(yaml).unwrap();
    assert!(spec.validate().is_ok());

    let containers = spec.spec.containers.as_ref().unwrap();
    assert_eq!(spec.spec.volumes.len(), 1);
    assert_eq!(spec.spec.volumes[0].name, "workspace");

    let init = &containers[0];
    assert_eq!(init.user.as_deref(), Some("0"));
    assert_eq!(
        init.entry_point.as_ref().unwrap(),
        &vec!["/bin/sh".to_string(), "-c".to_string()]
    );
    assert_eq!(
        init.mount_points.get("/workspace").unwrap().source_volume(),
        "workspace"
    );
    assert!(!init.mount_points.get("/workspace").unwrap().read_only());

    let app = &containers[1];
    assert_eq!(app.user.as_deref(), Some("1000"));
    assert!(app.readonly_root_filesystem);
    assert_eq!(app.depends_on.len(), 1);
    assert_eq!(app.depends_on[0].container_name, "init-perms");
    assert_eq!(app.depends_on[0].condition, DependsOnCondition::Success);
    assert_eq!(
        app.linux_parameters.as_ref().unwrap().capabilities_drop,
        vec!["ALL".to_string()]
    );
}

#[test]
fn test_backward_compatible_single_container_still_parses() {
    let spec: ServiceSpec = parse(r#"
apiVersion: ecsctl/v1
kind: Service
metadata:
  name: test-app
  cluster: test-cluster
spec:
  image: nginx:latest
  cpu: "256"
  memory: "512"
"#,
    )
    .unwrap();
    assert!(spec.spec.containers.is_none());
    assert!(spec.spec.volumes.is_empty());
    assert!(spec.validate().is_ok());
}

#[test]
fn test_validate_rejects_success_condition_on_essential_target() {
    let yaml = r#"
apiVersion: ecsctl/v1
kind: Service
metadata:
  name: sidecar-app
  cluster: test-cluster
spec:
  cpu: "1024"
  memory: "2048"
  containers:
    - name: app
      image: app:latest
      essential: true
      dependsOn:
        - containerName: envoy
          condition: SUCCESS
    - name: envoy
      image: envoy:latest
      essential: true
"#;
    let spec: ServiceSpec = parse(yaml).unwrap();
    let err = spec.validate().unwrap_err().to_string();
    assert!(err.contains("envoy"), "error was: {err}");
    assert!(err.contains("essential"), "error was: {err}");
}

#[test]
fn test_validate_accepts_success_condition_on_nonessential_target() {
    let yaml = r#"
apiVersion: ecsctl/v1
kind: Service
metadata:
  name: sidecar-app
  cluster: test-cluster
spec:
  cpu: "1024"
  memory: "2048"
  containers:
    - name: app
      image: app:latest
      essential: true
      dependsOn:
        - containerName: init-perms
          condition: SUCCESS
    - name: init-perms
      image: app:latest
      essential: false
"#;
    let spec: ServiceSpec = parse(yaml).unwrap();
    assert!(spec.validate().is_ok());
}

#[test]
fn test_validate_rejects_duplicate_container_names() {
    let yaml = r#"
apiVersion: ecsctl/v1
kind: Service
metadata:
  name: dup-app
  cluster: test-cluster
spec:
  cpu: "1024"
  memory: "2048"
  containers:
    - name: app
      image: one:latest
    - name: app
      image: two:latest
"#;
    let spec: ServiceSpec = parse(yaml).unwrap();
    let err = spec.validate().unwrap_err().to_string();
    assert!(err.contains("app"), "error was: {err}");
}

#[test]
fn test_validate_rejects_empty_containers_list() {
    let yaml = r#"
apiVersion: ecsctl/v1
kind: Service
metadata:
  name: empty-app
  cluster: test-cluster
spec:
  cpu: "1024"
  memory: "2048"
  containers: []
"#;
    let spec: ServiceSpec = parse(yaml).unwrap();
    assert!(spec.validate().is_err());
}

#[test]
fn test_validate_rejects_no_essential_container() {
    let yaml = r#"
apiVersion: ecsctl/v1
kind: Service
metadata:
  name: all-nonessential
  cluster: test-cluster
spec:
  cpu: "1024"
  memory: "2048"
  containers:
    - name: a
      image: a:latest
      essential: false
    - name: b
      image: b:latest
      essential: false
"#;
    let spec: ServiceSpec = parse(yaml).unwrap();
    let err = spec.validate().unwrap_err().to_string();
    assert!(err.contains("essential"), "error was: {err}");
}

#[test]
fn test_validate_rejects_duplicate_volume_names() {
    let yaml = r#"
apiVersion: ecsctl/v1
kind: Service
metadata:
  name: dup-volume
  cluster: test-cluster
spec:
  cpu: "1024"
  memory: "2048"
  volumes:
    - name: data
    - name: data
  containers:
    - name: app
      image: app:latest
"#;
    let spec: ServiceSpec = parse(yaml).unwrap();
    let err = spec.validate().unwrap_err().to_string();
    assert!(err.contains("data"), "error was: {err}");
}

#[test]
fn test_validate_self_dependency_reported_over_essential_target() {
    let yaml = r#"
apiVersion: ecsctl/v1
kind: Service
metadata:
  name: self-dep
  cluster: test-cluster
spec:
  cpu: "1024"
  memory: "2048"
  containers:
    - name: app
      image: app:latest
      essential: true
      dependsOn:
        - containerName: app
          condition: SUCCESS
"#;
    let spec: ServiceSpec = parse(yaml).unwrap();
    let err = spec.validate().unwrap_err().to_string();
    assert!(err.contains("itself"), "error was: {err}");
    assert!(
        !err.contains("essential: true"),
        "reported the essential-target error instead of self-dependency: {err}"
    );
}

#[test]
fn test_validate_rejects_unknown_capability() {
    let yaml = sidecar_yaml_with("linuxParameters:\n        capabilitiesDrop: [\"SYS_ADM\"]");
    let spec: ServiceSpec = parse(&yaml).unwrap();
    let err = spec.validate().unwrap_err().to_string();
    assert!(err.contains("SYS_ADM"), "error was: {err}");
}

#[test]
fn test_validate_accepts_known_capabilities() {
    let yaml =
        sidecar_yaml_with("linuxParameters:\n        capabilitiesDrop: [\"ALL\", \"SYS_ADMIN\"]");
    let spec: ServiceSpec = parse(&yaml).unwrap();
    assert!(spec.validate().is_ok());
}

#[test]
fn test_validate_detects_dependency_cycle() {
    let yaml = r#"
apiVersion: ecsctl/v1
kind: Service
metadata:
  name: cyclic
  cluster: test-cluster
spec:
  cpu: "1024"
  memory: "2048"
  containers:
    - name: a
      image: a:latest
      essential: true
      dependsOn:
        - containerName: b
          condition: START
    - name: b
      image: b:latest
      essential: false
      dependsOn:
        - containerName: a
          condition: START
"#;
    let spec: ServiceSpec = parse(yaml).unwrap();
    let err = spec.validate().unwrap_err().to_string();
    assert!(err.contains("cycle"), "error was: {err}");
    assert!(err.contains("a") && err.contains("b"), "error was: {err}");
}

#[test]
fn test_validate_accepts_diamond_dependency_without_cycle() {
    let yaml = r#"
apiVersion: ecsctl/v1
kind: Service
metadata:
  name: diamond
  cluster: test-cluster
spec:
  cpu: "1024"
  memory: "2048"
  containers:
    - name: init
      image: init:latest
      essential: false
    - name: a
      image: a:latest
      essential: true
      dependsOn:
        - containerName: init
          condition: SUCCESS
    - name: b
      image: b:latest
      essential: true
      dependsOn:
        - containerName: init
          condition: SUCCESS
"#;
    let spec: ServiceSpec = parse(yaml).unwrap();
    assert!(spec.validate().is_ok());
}

#[test]
fn test_mount_point_read_only_forms_parse() {
    let yaml = r#"
apiVersion: ecsctl/v1
kind: Service
metadata:
  name: mounts
  cluster: test-cluster
spec:
  cpu: "1024"
  memory: "2048"
  volumes:
    - name: workspace
    - name: config
  containers:
    - name: app
      image: app:latest
      essential: true
      mountPoints:
        /workspace: workspace
        /config:
          sourceVolume: config
          readOnly: true
"#;
    let spec: ServiceSpec = parse(yaml).unwrap();
    assert!(spec.validate().is_ok());
    let app = &spec.spec.containers.as_ref().unwrap()[0];
    let ws = app.mount_points.get("/workspace").unwrap();
    assert_eq!(ws.source_volume(), "workspace");
    assert!(!ws.read_only(), "shorthand form must default to read-write");
    let cfg = app.mount_points.get("/config").unwrap();
    assert_eq!(cfg.source_volume(), "config");
    assert!(cfg.read_only());
}

#[test]
fn test_efs_volume_parses_and_validates() {
    let yaml = r#"
apiVersion: ecsctl/v1
kind: Service
metadata:
  name: efs-app
  cluster: test-cluster
spec:
  cpu: "1024"
  memory: "2048"
  volumes:
    - name: shared
      efs:
        fileSystemId: fs-0123456789abcdef0
        rootDirectory: /data
        transitEncryption: ENABLED
  containers:
    - name: app
      image: app:latest
      essential: true
      mountPoints:
        /data: shared
"#;
    let spec: ServiceSpec = parse(yaml).unwrap();
    assert!(spec.validate().is_ok());
    let efs = spec.spec.volumes[0].efs.as_ref().unwrap();
    assert_eq!(efs.file_system_id, "fs-0123456789abcdef0");
    assert_eq!(efs.root_directory.as_deref(), Some("/data"));
}

fn sidecar_yaml_with(extra_container_field: &str) -> String {
    format!(
        r#"
apiVersion: ecsctl/v1
kind: Service
metadata:
  name: sidecar-app
  cluster: test-cluster
spec:
  cpu: "1024"
  memory: "2048"
  volumes:
    - name: workspace
  containers:
    - name: init-perms
      image: app:latest
      essential: false
      mountPoints:
        /workspace: workspace
    - name: app
      image: app:latest
      essential: true
      {extra}
"#,
        extra = extra_container_field
    )
}

#[test]
fn test_validate_rejects_healthy_condition() {
    let yaml = sidecar_yaml_with(
        "dependsOn:\n        - containerName: init-perms\n          condition: HEALTHY",
    );
    let spec: ServiceSpec = parse(&yaml).unwrap();
    let err = spec.validate().unwrap_err().to_string();
    assert!(err.contains("HEALTHY"), "error was: {err}");
    assert!(err.contains("healthCheck"), "error was: {err}");
}

#[test]
fn test_validate_rejects_depends_on_unknown_container() {
    let yaml = sidecar_yaml_with(
        "dependsOn:\n        - containerName: does-not-exist\n          condition: SUCCESS",
    );
    let spec: ServiceSpec = parse(&yaml).unwrap();
    let err = spec.validate().unwrap_err().to_string();
    assert!(err.contains("does-not-exist"), "error was: {err}");
}

#[test]
fn test_validate_rejects_depends_on_self() {
    let yaml =
        sidecar_yaml_with("dependsOn:\n        - containerName: app\n          condition: SUCCESS");
    let spec: ServiceSpec = parse(&yaml).unwrap();
    let err = spec.validate().unwrap_err().to_string();
    assert!(err.contains("itself"), "error was: {err}");
}

#[test]
fn test_validate_rejects_mount_point_unknown_volume() {
    let yaml = sidecar_yaml_with("mountPoints:\n        /data: not-a-real-volume");
    let spec: ServiceSpec = parse(&yaml).unwrap();
    let err = spec.validate().unwrap_err().to_string();
    assert!(err.contains("not-a-real-volume"), "error was: {err}");
}

#[test]
fn test_validate_accepts_valid_depends_on_and_mount_points() {
    let yaml = sidecar_yaml_with(
        "dependsOn:\n        - containerName: init-perms\n          condition: SUCCESS\n      mountPoints:\n        /workspace: workspace",
    );
    let spec: ServiceSpec = parse(&yaml).unwrap();
    assert!(spec.validate().is_ok());
}
