use ecsctl::apply::{
    is_known_capability, ContainerSpec, DependsOn, DependsOnCondition, LinuxParameters, Metadata,
    MountPointSpec, ServiceSpec, Spec, VolumeSpec,
};
use ecsctl::depgraph::find_cycle;
use ecsctl::strmap::StrMap;
use ecsctl::validate::SpecProblem;

fn container(name: &str, essential: bool) -> ContainerSpec {
    ContainerSpec {
        name: name.to_string(),
        image: "app:latest".to_string(),
        essential,
        port: 0,
        command: None,
        entry_point: None,
        env: StrMap::new(),
        secrets: StrMap::new(),
        log_group: None,
        user: None,
        readonly_root_filesystem: false,
        depends_on: Vec::new(),
        linux_parameters: None,
        mount_points: StrMap::new(),
    }
}

fn depends(c: ContainerSpec, on: &[(&str, DependsOnCondition)]) -> ContainerSpec {
    ContainerSpec {
        depends_on: on
            .iter()
            .map(|(n, condition)| DependsOn {
                container_name: n.to_string(),
                condition: *condition,
            })
            .collect(),
        ..c
    }
}

fn spec(cpu: &str, memory: &str, containers: Option<Vec<ContainerSpec>>) -> ServiceSpec {
    ServiceSpec {
        api_version: None,
        kind: None,
        metadata: Metadata { name: "svc".to_string(), cluster: "cl".to_string() },
        spec: Spec {
            image: String::new(),
            cpu: cpu.to_string(),
            memory: memory.to_string(),
            arch: "X86_64".to_string(),
            capacity: "FARGATE".to_string(),
            desired_count: 1,
            exec_enabled: false,
            env: StrMap::new(),
            secrets: StrMap::new(),
            log_group: None,
            execution_role_arn: None,
            task_role_arn: None,
            subnets: None,
            security_groups: None,
            assign_public_ip: false,
            container_name: None,
            port: 0,
            command: None,
            containers,
            volumes: Vec::new(),
        },
    }
}

fn problem(s: &ServiceSpec) -> (SpecProblem, String) {
    let e = s.validate().unwrap_err();
    let m = e.to_string();
    (e.kind, m)
}

#[test]
fn platform_and_capacity() {
    let mut s = spec("256", "512", None);
    s.spec.arch = "MIPS".to_string();
    s.spec.capacity = "EC2".to_string();
    assert_eq!(
        problem(&s),
        (SpecProblem::Arch, "invalid arch 'MIPS': expected X86_64 or ARM64".to_string())
    );
    s.spec.arch = "ARM64".to_string();
    assert_eq!(
        problem(&s),
        (
            SpecProblem::Capacity,
            "invalid capacity 'EC2': expected FARGATE or FARGATE_SPOT".to_string()
        )
    );
    s.spec.capacity = "FARGATE_SPOT".to_string();
    assert!(s.validate().is_ok());
}

#[test]
fn sizes() {
    assert_eq!(
        problem(&spec("x", "512", None)),
        (SpecProblem::CpuNotANumber, "cpu must be a number (e.g. \"256\")".to_string())
    );
    assert_eq!(
        problem(&spec("256", "4294967296", None)),
        (SpecProblem::MemoryNotANumber, "memory must be a number (e.g. \"512\")".to_string())
    );
    assert_eq!(
        problem(&spec("123", "512", None)),
        (
            SpecProblem::Cpu,
            "invalid cpu '123': valid values are 256, 512, 1024, 2048, 4096".to_string()
        )
    );
    assert_eq!(
        problem(&spec("256", "8192", None)),
        (
            SpecProblem::Memory,
            "invalid memory '8192' for cpu '256': valid values are 512, 1024, 2048".to_string()
        )
    );
    assert!(spec("4096", "30720", None).validate().is_ok());
    assert!(spec("+256", "0512", None).validate().is_ok());
    assert!(spec("2048", "3072", None).validate().is_err());
}

#[test]
fn counts() {
    let mut s = spec("256", "512", None);
    s.spec.desired_count = -1;
    assert_eq!(
        problem(&s),
        (SpecProblem::DesiredCount, "desiredCount must be >= 0".to_string())
    );
    s.spec.desired_count = 0;
    assert!(s.validate().is_ok());
}

#[test]
fn lists_of_containers() {
    assert_eq!(problem(&spec("256", "512", Some(Vec::new()))).0, SpecProblem::NoContainers);
    let twice = vec![container("a", true), container("b", true), container("a", true)];
    assert_eq!(
        problem(&spec("256", "512", Some(twice))),
        (
            SpecProblem::DuplicateContainer,
            "container name 'a' is used by more than one entry in spec.containers".to_string()
        )
    );
    assert_eq!(
        problem(&spec("256", "512", Some(vec![container("a", false)]))).0,
        SpecProblem::NoEssentialContainer
    );
    let mut s = spec("256", "512", Some(vec![container("a", true)]));
    for _ in 0..2 {
        s.spec.volumes.push(VolumeSpec {
            name: "v".to_string(),
            efs: None,
            configured_at_launch: false,
        });
    }
    assert_eq!(problem(&s).0, SpecProblem::DuplicateVolume);
    s.spec.containers = None;
    assert!(s.validate().is_ok());
}

#[test]
fn settings_of_containers() {
    let mut c = container("a", true);
    c.linux_parameters = Some(LinuxParameters { capabilities_drop: vec!["SYS_ADM".to_string()] });
    assert_eq!(
        problem(&spec("256", "512", Some(vec![c]))),
        (
            SpecProblem::UnknownCapability,
            "container 'a' drops unknown Linux capability 'SYS_ADM': ECS accepts only the capability names in its task definition reference (ALL, SYS_ADMIN, NET_RAW, ...), and a typo here is rejected by AWS with an error that does not name the bad value".to_string()
        )
    );
    let mut c = container("a", true);
    c.mount_points.insert("/b".to_string(), MountPointSpec::Volume("x".to_string()));
    c.mount_points.insert("/a".to_string(), MountPointSpec::Volume("y".to_string()));
    assert_eq!(
        problem(&spec("256", "512", Some(vec![c]))),
        (
            SpecProblem::UnknownVolume,
            "container 'a' mounts 'y' at '/a', but 'y' is not defined in spec.volumes".to_string()
        )
    );
    assert!(is_known_capability("WAKE_ALARM") && !is_known_capability("wake_alarm"));
}

#[test]
fn dependencies() {
    let list = vec![depends(container("a", true), &[("b", DependsOnCondition::Start)])];
    assert_eq!(
        problem(&spec("256", "512", Some(list))),
        (
            SpecProblem::UnknownDependency,
            "container 'a' dependsOn references 'b', which is not defined in spec.containers"
                .to_string()
        )
    );
    let list = vec![depends(container("a", true), &[("a", DependsOnCondition::Success)])];
    assert_eq!(
        problem(&spec("256", "512", Some(list))),
        (SpecProblem::SelfDependency, "container 'a' has a dependsOn on itself".to_string())
    );
    let list = vec![
        depends(container("a", true), &[("b", DependsOnCondition::Complete)]),
        container("b", true),
    ];
    assert_eq!(
        problem(&spec("256", "512", Some(list))),
        (
            SpecProblem::EssentialDependency,
            "container 'a' dependsOn 'b' with condition COMPLETE, but 'b' is essential: true. AWS rejects this combination (\"A dependency container with SUCCESS or COMPLETE condition cannot be an essential container\") -- set essential: false on 'b', or use condition: START".to_string()
        )
    );
    let list = vec![
        depends(container("a", true), &[("b", DependsOnCondition::Healthy)]),
        container("b", true),
    ];
    assert_eq!(problem(&spec("256", "512", Some(list))).0, SpecProblem::HealthyDependency);
}

#[test]
fn cycles_are_named() {
    let list = vec![
        depends(container("z", true), &[("y", DependsOnCondition::Start)]),
        depends(container("y", true), &[("x", DependsOnCondition::Start)]),
        depends(container("x", true), &[("y", DependsOnCondition::Start)]),
    ];
    assert_eq!(
        problem(&spec("256", "512", Some(list))),
        (
            SpecProblem::DependencyCycle,
            "dependsOn cycle in spec.containers: x -> y -> x. ECS cannot start any container in a cycle, and rejects this at RegisterTaskDefinition".to_string()
        )
    );
}

#[test]
fn cycles_in_graphs() {
    let order = vec![0, 1, 2, 3];
    assert_eq!(find_cycle(&vec![vec![1, 2], vec![3], vec![3], vec![]], &order), None);
    assert_eq!(
        find_cycle(&vec![vec![1], vec![2], vec![3], vec![1]], &order),
        Some(vec![1, 2, 3, 1])
    );
    assert_eq!(find_cycle(&vec![vec![], vec![2], vec![1]], &vec![0, 2, 1]), Some(vec![2, 1, 2]));
}

#[test]
fn order_of_containers_and_volumes() {
    let first = || depends(container("first", true), &[("second", DependsOnCondition::Start)]);
    let second = || depends(container("second", false), &[("third", DependsOnCondition::Success)]);
    let third = || container("third", false);
    let back = || depends(container("third", false), &[("first", DependsOnCondition::Start)]);
    for list in [
        vec![first(), second(), third()],
        vec![third(), second(), first()],
        vec![second(), first(), third()],
    ] {
        assert!(spec("256", "512", Some(list)).validate().is_ok());
    }
    for list in [
        vec![first(), second(), back()],
        vec![back(), second(), first()],
        vec![second(), back(), first()],
    ] {
        let s = spec("256", "512", Some(list));
        assert_eq!(problem(&s).0, SpecProblem::DependencyCycle);
    }
    let volume = |name: &str| VolumeSpec {
        name: name.to_string(),
        efs: None,
        configured_at_launch: false,
    };
    for names in [["a", "b"], ["b", "a"]] {
        let mut c = container("app", true);
        c.mount_points.insert("/x".to_string(), MountPointSpec::Volume("a".to_string()));
        let mut s = spec("256", "512", Some(vec![c]));
        s.spec.volumes = names.iter().map(|n| volume(n)).collect();
        assert!(s.validate().is_ok());
    }
}
