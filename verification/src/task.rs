//! What ECS is asked for when a service specification is applied.

use crate::apply::{
    ContainerSpec, DependsOn, DependsOnCondition, EfsVolumeSpec, MountPointSpec, ServiceSpec, Spec,
    VolumeSpec,
};
use crate::ecs::{
    CapacityProvider, ConditionView, ContainerCondition, ContainerDefinition, ContainerDependency,
    ContainerView, EfsAuthorization, EfsView, EfsVolumeConfiguration, KernelCapabilities,
    KeyValuePair, LinuxSettings, LogConfiguration, LogView, MountPoint, MountPointView, Network,
    NetworkView, PortMapping, Secret, ServiceRequest, ServiceRequestView, TaskDefinition,
    TaskDefinitionView, Volume, VolumeView,
};
use crate::error::Error;
use crate::strmap::StrMap;
use crate::text;
use crate::textmap;
use vstd::prelude::*;

verus! {

/// What can keep a container from being defined.
#[derive(Debug, Clone, Copy, PartialEq, Eq, Structural)]
pub enum DefineProblem {
    /// A container waits for another one to be healthy.
    HealthyDependency,
}

/// The condition of ECS for a condition of a specification.
pub open spec fn ecs_condition(c: DependsOnCondition) -> ConditionView {
    match c {
        DependsOnCondition::Start => ConditionView::Start,
        DependsOnCondition::Success => ConditionView::Success,
        DependsOnCondition::Complete => ConditionView::Complete,
        DependsOnCondition::Healthy => ConditionView::Healthy,
    }
}

/// The first dependency, from place `i` on, that waits for health.
pub open spec fn first_healthy(deps: Seq<DependsOn>, i: int) -> int
    decreases deps.len() - i,
{
    if i < 0 || i >= deps.len() {
        deps.len() as int
    } else if deps[i].condition == DependsOnCondition::Healthy {
        i
    } else {
        first_healthy(deps, i + 1)
    }
}

/// The message about a container that waits for another one to be healthy.
pub open spec fn healthy_message(name: Seq<char>, target: Seq<char>) -> Seq<char> {
    "container '"@ + name + "' dependsOn '"@ + target
        + "' uses condition HEALTHY, which is not yet supported (no way to configure the required healthCheck)"@
}

/// The mount that ECS is asked for.
pub open spec fn mount_view(path: Seq<char>, mp: MountPointSpec) -> MountPointView {
    MountPointView {
        source_volume: Some(mp.volume()),
        container_path: Some(path),
        read_only: Some(mp.is_read_only()),
    }
}

/// The log settings of a container that writes to a log group.
pub open spec fn log_view(group: Seq<char>, region: Seq<char>, service: Seq<char>) -> LogView {
    LogView {
        log_driver: "awslogs"@,
        options: Some(
            Map::<Seq<char>, Seq<char>>::empty().insert("awslogs-group"@, group).insert(
                "awslogs-region"@,
                region,
            ).insert("awslogs-stream-prefix"@, service),
        ),
    }
}

/// The definition of a container.
pub open spec fn container_view(
    cs: ContainerSpec,
    service: Seq<char>,
    region: Seq<char>,
) -> ContainerView {
    ContainerView {
        name: Some(cs.name@),
        image: Some(cs.image@),
        essential: Some(cs.essential),
        command: crate::ecs::opt_texts(cs.command),
        entry_point: crate::ecs::opt_texts(cs.entry_point),
        user: text::opt_text(cs.user),
        readonly_root_filesystem: if cs.readonly_root_filesystem {
            Some(true)
        } else {
            None
        },
        depends_on: cs.depends_on@.map_values(
            |d: DependsOn| (d.container_name@, ecs_condition(d.condition)),
        ),
        linux_parameters: match cs.linux_parameters {
            Some(lp) => Some(Some((Seq::empty(), text::texts(lp.capabilities_drop@)))),
            None => None,
        },
        mount_points: Seq::new(
            cs.mount_points.len_spec() as nat,
            |i: int| mount_view(cs.mount_points.key(i), cs.mount_points.value(i)),
        ),
        port_mappings: if cs.port > 0 {
            seq![(Some(cs.port as i32), Some("tcp"@))]
        } else {
            Seq::empty()
        },
        environment: textmap::pairs(cs.env).map_values(
            |kv: (Seq<char>, Seq<char>)| (Some(kv.0), Some(kv.1)),
        ),
        secrets: textmap::pairs(cs.secrets),
        log_configuration: match cs.log_group {
            Some(group) => Some(log_view(group@, region, service)),
            None => None,
        },
    }
}

/// What defining a container comes to.
pub open spec fn define_result(
    cs: ContainerSpec,
    service: Seq<char>,
    region: Seq<char>,
) -> Result<ContainerView, (DefineProblem, Seq<char>)> {
    let i = first_healthy(cs.depends_on@, 0);
    if i < cs.depends_on@.len() {
        Err(
            (
                DefineProblem::HealthyDependency,
                healthy_message(cs.name@, cs.depends_on@[i].container_name@),
            ),
        )
    } else {
        Ok(container_view(cs, service, region))
    }
}

fn copy_list(list: &Option<Vec<String>>) -> (r: Option<Vec<String>>)
    ensures
        crate::ecs::opt_texts(r) == crate::ecs::opt_texts(*list),
{
    match list {
        Some(list) => Some(text::copy_all(list)),
        None => None,
    }
}

fn define_dependencies(cs: &ContainerSpec) -> (r: Result<
    Vec<ContainerDependency>,
    Error<DefineProblem>,
>)
    ensures
        match r {
            Ok(list) => {
                &&& first_healthy(cs.depends_on@, 0) == cs.depends_on@.len()
                &&& list@.map_values(|d: ContainerDependency| d@) == cs.depends_on@.map_values(
                    |d: DependsOn| (d.container_name@, ecs_condition(d.condition)),
                )
            },
            Err(e) => {
                let i = first_healthy(cs.depends_on@, 0);
                &&& 0 <= i < cs.depends_on@.len()
                &&& e@ == (
                    DefineProblem::HealthyDependency,
                    healthy_message(cs.name@, cs.depends_on@[i].container_name@),
                )
            },
        },
{
    let ghost wanted = cs.depends_on@.map_values(
        |d: DependsOn| (d.container_name@, ecs_condition(d.condition)),
    );
    let mut out: Vec<ContainerDependency> = Vec::new();
    let mut i: usize = 0;
    while i < cs.depends_on.len()
        invariant
            i <= cs.depends_on@.len(),
            wanted == cs.depends_on@.map_values(
                |d: DependsOn| (d.container_name@, ecs_condition(d.condition)),
            ),
            first_healthy(cs.depends_on@, 0) == first_healthy(cs.depends_on@, i as int),
            out@.len() == i,
            forall|j: int| 0 <= j < i ==> (#[trigger] out@[j])@ == wanted[j],
        decreases cs.depends_on@.len() - i,
    {
        let dep = &cs.depends_on[i];
        let condition = match dep.condition {
            DependsOnCondition::Start => ContainerCondition::Start,
            DependsOnCondition::Success => ContainerCondition::Success,
            DependsOnCondition::Complete => ContainerCondition::Complete,
            DependsOnCondition::Healthy => {
                let mut m = String::from_str("container '");
                m.append(cs.name.as_str());
                m.append("' dependsOn '");
                m.append(dep.container_name.as_str());
                m.append(
                    "' uses condition HEALTHY, which is not yet supported (no way to configure the required healthCheck)",
                );
                return Err(Error { kind: DefineProblem::HealthyDependency, message: m });
            },
        };
        out.push(ContainerDependency { container_name: dep.container_name.clone(), condition });
        i = i + 1;
    }
    assert(out@.map_values(|d: ContainerDependency| d@) =~= wanted);
    Ok(out)
}

fn define_mounts(mounts: &StrMap<MountPointSpec>) -> (r: Vec<MountPoint>)
    ensures
        r@.map_values(|m: MountPoint| m@) == Seq::new(
            mounts.len_spec() as nat,
            |i: int| mount_view(mounts.key(i), mounts.value(i)),
        ),
{
    let n = mounts.len();
    let mut out: Vec<MountPoint> = Vec::new();
    let mut i: usize = 0;
    while i < n
        invariant
            n == mounts.len_spec(),
            i <= n,
            out@.len() == i,
            forall|j: int|
                0 <= j < i ==> (#[trigger] out@[j])@ == mount_view(mounts.key(j), mounts.value(j)),
        decreases n - i,
    {
        let mp = mounts.value_at(i);
        out.push(
            MountPoint {
                source_volume: Some(String::from_str(mp.source_volume())),
                container_path: Some(String::from_str(mounts.key_at(i))),
                read_only: Some(mp.read_only()),
            },
        );
        i = i + 1;
    }
    assert(out@.map_values(|m: MountPoint| m@) =~= Seq::new(
        mounts.len_spec() as nat,
        |i: int| mount_view(mounts.key(i), mounts.value(i)),
    ));
    out
}

fn define_environment(env: &StrMap<String>) -> (r: Vec<KeyValuePair>)
    ensures
        r@.map_values(|kv: KeyValuePair| kv@) == textmap::pairs(*env).map_values(
            |kv: (Seq<char>, Seq<char>)| (Some(kv.0), Some(kv.1)),
        ),
{
    let n = env.len();
    let mut out: Vec<KeyValuePair> = Vec::new();
    let mut i: usize = 0;
    while i < n
        invariant
            n == env.len_spec(),
            i <= n,
            out@.len() == i,
            forall|j: int|
                0 <= j < i ==> (#[trigger] out@[j])@ == (Some(env.key(j)), Some(env.value(j)@)),
        decreases n - i,
    {
        out.push(
            KeyValuePair {
                name: Some(String::from_str(env.key_at(i))),
                value: Some(env.value_at(i).clone()),
            },
        );
        i = i + 1;
    }
    assert(out@.map_values(|kv: KeyValuePair| kv@) =~= textmap::pairs(*env).map_values(
        |kv: (Seq<char>, Seq<char>)| (Some(kv.0), Some(kv.1)),
    ));
    out
}

fn define_secrets(secrets: &StrMap<String>) -> (r: Vec<Secret>)
    ensures
        r@.map_values(|s: Secret| s@) == textmap::pairs(*secrets),
{
    let n = secrets.len();
    let mut out: Vec<Secret> = Vec::new();
    let mut i: usize = 0;
    while i < n
        invariant
            n == secrets.len_spec(),
            i <= n,
            out@.len() == i,
            forall|j: int|
                0 <= j < i ==> (#[trigger] out@[j])@ == (secrets.key(j), secrets.value(j)@),
        decreases n - i,
    {
        out.push(
            Secret {
                name: String::from_str(secrets.key_at(i)),
                value_from: secrets.value_at(i).clone(),
            },
        );
        i = i + 1;
    }
    assert(out@.map_values(|s: Secret| s@) =~= textmap::pairs(*secrets));
    out
}

fn define_log(group: &str, region: &str, service: &str) -> (r: LogConfiguration)
    ensures
        r@ == log_view(group@, region@, service@),
{
    let mut options: StrMap<String> = StrMap::new();
    options.insert(String::from_str("awslogs-group"), String::from_str(group));
    options.insert(String::from_str("awslogs-region"), String::from_str(region));
    options.insert(String::from_str("awslogs-stream-prefix"), String::from_str(service));
    assert(textmap::text_map(options) =~= log_view(group@, region@, service@).options->0);
    LogConfiguration { log_driver: String::from_str("awslogs"), options: Some(options) }
}

/// Defines a container: every setting of its specification, and the log
/// settings that follow from the service and the region.
pub fn build_container_def(cs: &ContainerSpec, service_name: &str, region: &str) -> (r: Result<
    ContainerDefinition,
    Error<DefineProblem>,
>)
    ensures
        match r {
            Ok(cd) => define_result(*cs, service_name@, region@) == Ok::<
                ContainerView,
                (DefineProblem, Seq<char>),
            >(cd@),
            Err(e) => define_result(*cs, service_name@, region@) == Err::<
                ContainerView,
                (DefineProblem, Seq<char>),
            >(e@),
        },
{
    let depends_on = match define_dependencies(cs) {
        Ok(list) => list,
        Err(e) => {
            return Err(e);
        },
    };
    let linux_parameters = match &cs.linux_parameters {
        Some(lp) => {
            let added: Vec<String> = Vec::new();
            assert(text::texts(added@) =~= Seq::empty());
            Some(
                LinuxSettings {
                    capabilities: Some(
                        KernelCapabilities {
                            added,
                            dropped: text::copy_all(&lp.capabilities_drop),
                        },
                    ),
                },
            )
        },
        None => None,
    };
    let mut port_mappings: Vec<PortMapping> = Vec::new();
    if cs.port > 0 {
        port_mappings.push(
            PortMapping {
                container_port: Some(cs.port as i32),
                protocol: Some(String::from_str("tcp")),
            },
        );
    }
    let log_configuration = match &cs.log_group {
        Some(group) => Some(define_log(group.as_str(), region, service_name)),
        None => None,
    };
    let cd = ContainerDefinition {
        name: Some(cs.name.clone()),
        image: Some(cs.image.clone()),
        essential: Some(cs.essential),
        command: copy_list(&cs.command),
        entry_point: copy_list(&cs.entry_point),
        user: text::copy_opt(&cs.user),
        readonly_root_filesystem: if cs.readonly_root_filesystem {
            Some(true)
        } else {
            None
        },
        depends_on,
        linux_parameters,
        mount_points: define_mounts(&cs.mount_points),
        port_mappings,
        environment: define_environment(&cs.env),
        secrets: define_secrets(&cs.secrets),
        log_configuration,
    };
    assert(cd@ =~= container_view(*cs, service_name@, region@));
    Ok(cd)
}

/// The volume that ECS is asked for.
pub open spec fn volume_view(v: VolumeSpec) -> VolumeView {
    VolumeView {
        name: Some(v.name@),
        has_docker_configuration: false,
        has_fsx_configuration: false,
        host_source_path: None,
        configured_at_launch: if v.configured_at_launch {
            Some(true)
        } else {
            None
        },
        efs_volume_configuration: match v.efs {
            Some(efs) => Some(efs_view(efs)),
            None => None,
        },
    }
}

/// The file system that ECS is asked for.
pub open spec fn efs_view(efs: EfsVolumeSpec) -> EfsView {
    EfsView {
        file_system_id: efs.file_system_id@,
        root_directory: text::opt_text(efs.root_directory),
        transit_encryption: text::opt_text(efs.transit_encryption),
        transit_encryption_port: None,
        authorization_config: if efs.access_point_id is Some || efs.iam is Some {
            Some((text::opt_text(efs.access_point_id), text::opt_text(efs.iam)))
        } else {
            None
        },
    }
}

/// Defines a volume.
pub fn build_volume(v: &VolumeSpec) -> (r: Volume)
    ensures
        r@ == volume_view(*v),
{
    let efs = match &v.efs {
        Some(efs) => {
            let authorization_config = if efs.access_point_id.is_some() || efs.iam.is_some() {
                Some(
                    EfsAuthorization {
                        access_point_id: text::copy_opt(&efs.access_point_id),
                        iam: text::copy_opt(&efs.iam),
                    },
                )
            } else {
                None
            };
            Some(
                EfsVolumeConfiguration {
                    file_system_id: efs.file_system_id.clone(),
                    root_directory: text::copy_opt(&efs.root_directory),
                    transit_encryption: text::copy_opt(&efs.transit_encryption),
                    transit_encryption_port: None,
                    authorization_config,
                },
            )
        },
        None => None,
    };
    Volume {
        name: Some(v.name.clone()),
        has_docker_configuration: false,
        has_fsx_configuration: false,
        host_source_path: None,
        configured_at_launch: if v.configured_at_launch {
            Some(true)
        } else {
            None
        },
        efs_volume_configuration: efs,
    }
}

/// Whether a container is the one that a specification without a list of
/// containers describes.
pub open spec fn is_single_container(spec: Spec, cs: ContainerSpec) -> bool {
    &&& cs.name@ == (match spec.container_name {
        Some(name) => name@,
        None => "app"@,
    })
    &&& cs.image@ == spec.image@
    &&& cs.essential
    &&& cs.port == spec.port
    &&& crate::ecs::opt_texts(cs.command) == crate::ecs::opt_texts(spec.command)
    &&& cs.entry_point is None
    &&& textmap::pairs(cs.env) == textmap::pairs(spec.env)
    &&& textmap::pairs(cs.secrets) == textmap::pairs(spec.secrets)
    &&& text::opt_text(cs.log_group) == text::opt_text(spec.log_group)
    &&& cs.user is None
    &&& !cs.readonly_root_filesystem
    &&& cs.depends_on@.len() == 0
    &&& cs.linux_parameters is None
    &&& cs.mount_points@ == Map::<Seq<char>, MountPointSpec>::empty()
    &&& cs.mount_points.len_spec() == 0
}

/// The container that a specification without a list of containers describes.
pub fn single_container(spec: &Spec) -> (r: ContainerSpec)
    ensures
        is_single_container(*spec, r),
{
    ContainerSpec {
        name: match &spec.container_name {
            Some(name) => name.clone(),
            None => String::from_str("app"),
        },
        image: spec.image.clone(),
        essential: true,
        port: spec.port,
        command: copy_list(&spec.command),
        entry_point: None,
        env: textmap::copy_map(&spec.env),
        secrets: textmap::copy_map(&spec.secrets),
        log_group: text::copy_opt(&spec.log_group),
        user: None,
        readonly_root_filesystem: false,
        depends_on: Vec::new(),
        linux_parameters: None,
        mount_points: StrMap::new(),
    }
}

/// The definition of the container that a specification without a list of
/// containers describes.
pub open spec fn single_container_view(
    spec: Spec,
    service: Seq<char>,
    region: Seq<char>,
) -> ContainerView {
    ContainerView {
        name: Some(
            match spec.container_name {
                Some(name) => name@,
                None => "app"@,
            },
        ),
        image: Some(spec.image@),
        essential: Some(true),
        command: crate::ecs::opt_texts(spec.command),
        entry_point: None,
        user: None,
        readonly_root_filesystem: None,
        depends_on: Seq::empty(),
        linux_parameters: None,
        mount_points: Seq::empty(),
        port_mappings: if spec.port > 0 {
            seq![(Some(spec.port as i32), Some("tcp"@))]
        } else {
            Seq::empty()
        },
        environment: textmap::pairs(spec.env).map_values(
            |kv: (Seq<char>, Seq<char>)| (Some(kv.0), Some(kv.1)),
        ),
        secrets: textmap::pairs(spec.secrets),
        log_configuration: match spec.log_group {
            Some(group) => Some(log_view(group@, region, service)),
            None => None,
        },
    }
}

/// What defining the first `n` containers of a list comes to: their
/// definitions, or what keeps the first of them from being defined.
pub open spec fn define_each(
    list: Seq<ContainerSpec>,
    service: Seq<char>,
    region: Seq<char>,
    n: int,
) -> Result<Seq<ContainerView>, (DefineProblem, Seq<char>)>
    decreases n,
{
    if n <= 0 {
        Ok(Seq::empty())
    } else {
        match define_each(list, service, region, n - 1) {
            Ok(before) => match define_result(list[n - 1], service, region) {
                Ok(c) => Ok(before.push(c)),
                Err(e) => Err(e),
            },
            Err(e) => Err(e),
        }
    }
}

/// What the containers of a specification are defined as.
pub open spec fn defined_containers(spec: Spec, service: Seq<char>, region: Seq<char>) -> Result<
    Seq<ContainerView>,
    (DefineProblem, Seq<char>),
> {
    match spec.containers {
        Some(list) => define_each(list@, service, region, list@.len() as int),
        None => Ok(seq![single_container_view(spec, service, region)]),
    }
}

/// The task definition that is registered for a service.
pub open spec fn task_definition_view(
    spec: Spec,
    service: Seq<char>,
    containers: Seq<ContainerView>,
) -> TaskDefinitionView {
    TaskDefinitionView {
        family: Some(service),
        cpu: Some(spec.cpu@),
        memory: Some(spec.memory@),
        network_mode: Some("awsvpc"@),
        requires_compatibilities: seq!["FARGATE"@],
        cpu_architecture: Some(spec.arch@),
        operating_system_family: Some("LINUX"@),
        container_definitions: containers,
        volumes: spec.volumes@.map_values(|v: VolumeSpec| volume_view(v)),
        execution_role_arn: text::opt_text(spec.execution_role_arn),
        task_role_arn: text::opt_text(spec.task_role_arn),
    }
}

/// What registering the task definition of a service comes to.
pub open spec fn registration(spec: ServiceSpec, region: Seq<char>) -> Result<
    TaskDefinitionView,
    (DefineProblem, Seq<char>),
> {
    match defined_containers(spec.spec, spec.metadata.name@, region) {
        Ok(containers) => Ok(task_definition_view(spec.spec, spec.metadata.name@, containers)),
        Err(e) => Err(e),
    }
}

proof fn lemma_define_each_err(
    list: Seq<ContainerSpec>,
    service: Seq<char>,
    region: Seq<char>,
    n: int,
    m: int,
)
    requires
        0 <= n <= m,
        define_each(list, service, region, n) is Err,
    ensures
        define_each(list, service, region, m) == define_each(list, service, region, n),
    decreases m - n,
{
    if n < m {
        lemma_define_each_err(list, service, region, n + 1, m);
    }
}

fn define_containers(spec: &Spec, service: &str, region: &str) -> (r: Result<
    Vec<ContainerDefinition>,
    Error<DefineProblem>,
>)
    ensures
        match r {
            Ok(list) => defined_containers(*spec, service@, region@) == Ok::<
                Seq<ContainerView>,
                (DefineProblem, Seq<char>),
            >(list@.map_values(|c: ContainerDefinition| c@)),
            Err(e) => defined_containers(*spec, service@, region@) == Err::<
                Seq<ContainerView>,
                (DefineProblem, Seq<char>),
            >(e@),
        },
{
    let mut out: Vec<ContainerDefinition> = Vec::new();
    match &spec.containers {
        Some(list) => {
            let mut i: usize = 0;
            assert(out@.map_values(|c: ContainerDefinition| c@) =~= Seq::empty());
            while i < list.len()
                invariant
                    i <= list@.len(),
                    define_each(list@, service@, region@, i as int) == Ok::<
                        Seq<ContainerView>,
                        (DefineProblem, Seq<char>),
                    >(out@.map_values(|c: ContainerDefinition| c@)),
                    spec.containers == Some(*list),
                decreases list@.len() - i,
            {
                let ghost before = out@.map_values(|c: ContainerDefinition| c@);
                match build_container_def(&list[i], service, region) {
                    Ok(cd) => {
                        out.push(cd);
                        assert(out@.map_values(|c: ContainerDefinition| c@) =~= before.push(cd@));
                    },
                    Err(e) => {
                        proof {
                            lemma_define_each_err(
                                list@,
                                service@,
                                region@,
                                i + 1,
                                list@.len() as int,
                            );
                        }
                        return Err(e);
                    },
                }
                i = i + 1;
            }
        },
        None => {
            let cs = single_container(spec);
            assert(first_healthy(cs.depends_on@, 0) == 0);
            match build_container_def(&cs, service, region) {
                Ok(cd) => {
                    proof {
                        assert(cd@ =~= single_container_view(*spec, service@, region@));
                    }
                    out.push(cd);
                    assert(out@.map_values(|c: ContainerDefinition| c@) =~= seq![
                        single_container_view(*spec, service@, region@),
                    ]);
                },
                Err(e) => {
                    return Err(e);
                },
            }
        },
    }
    Ok(out)
}

/// Builds the task definition that is registered when a specification is
/// applied in a region.
pub fn build_task_definition(spec: &ServiceSpec, region: &str) -> (r: Result<
    TaskDefinition,
    Error<DefineProblem>,
>)
    ensures
        match r {
            Ok(td) => registration(*spec, region@) == Ok::<
                TaskDefinitionView,
                (DefineProblem, Seq<char>),
            >(td@),
            Err(e) => registration(*spec, region@) == Err::<
                TaskDefinitionView,
                (DefineProblem, Seq<char>),
            >(e@),
        },
{
    let name = spec.metadata.name.as_str();
    let container_definitions = match define_containers(&spec.spec, name, region) {
        Ok(list) => list,
        Err(e) => {
            return Err(e);
        },
    };
    let mut volumes: Vec<Volume> = Vec::new();
    let mut i: usize = 0;
    while i < spec.spec.volumes.len()
        invariant
            i <= spec.spec.volumes@.len(),
            volumes@.len() == i,
            forall|j: int|
                0 <= j < i ==> (#[trigger] volumes@[j])@ == volume_view(spec.spec.volumes@[j]),
        decreases spec.spec.volumes@.len() - i,
    {
        volumes.push(build_volume(&spec.spec.volumes[i]));
        i = i + 1;
    }
    let mut requires_compatibilities: Vec<String> = Vec::new();
    requires_compatibilities.push(String::from_str("FARGATE"));
    let td = TaskDefinition {
        family: Some(spec.metadata.name.clone()),
        cpu: Some(spec.spec.cpu.clone()),
        memory: Some(spec.spec.memory.clone()),
        network_mode: Some(String::from_str("awsvpc")),
        requires_compatibilities,
        cpu_architecture: Some(spec.spec.arch.clone()),
        operating_system_family: Some(String::from_str("LINUX")),
        container_definitions,
        volumes,
        execution_role_arn: text::copy_opt(&spec.spec.execution_role_arn),
        task_role_arn: text::copy_opt(&spec.spec.task_role_arn),
    };
    proof {
        assert(td@.volumes =~= spec.spec.volumes@.map_values(|v: VolumeSpec| volume_view(v)));
        assert(td@.requires_compatibilities =~= seq!["FARGATE"@]);
    }
    Ok(td)
}

/// Whether the answer to a question for a service says that it is running. The
/// answer is absent where the question failed or no service was found.
pub fn service_active(answer: &Option<Option<String>>) -> (r: bool)
    ensures
        r == (answer matches Some(Some(status)) && status@ == "ACTIVE"@),
{
    match answer {
        Some(Some(status)) => text::same(status.as_str(), "ACTIVE"),
        _ => false,
    }
}

/// The capacity providers of a service.
pub open spec fn strategy_view(spec: Spec) -> Seq<(Seq<char>, i32)> {
    if spec.capacity@ == "FARGATE_SPOT"@ {
        seq![("FARGATE_SPOT"@, 1i32)]
    } else {
        Seq::empty()
    }
}

/// The texts of a list that may be absent.
pub open spec fn texts_or_none(list: Option<Vec<String>>) -> Seq<Seq<char>> {
    match list {
        Some(list) => text::texts(list@),
        None => Seq::empty(),
    }
}

/// What ECS is asked to make of a service: an existing one keeps its network
/// and how it is launched.
pub open spec fn service_request_view(
    spec: ServiceSpec,
    task_definition: Seq<char>,
    exists_already: bool,
) -> ServiceRequestView {
    ServiceRequestView {
        cluster: spec.metadata.cluster@,
        service: spec.metadata.name@,
        task_definition,
        desired_count: spec.spec.desired_count,
        enable_execute_command: spec.spec.exec_enabled,
        launch_type: if exists_already || spec.spec.capacity@ == "FARGATE_SPOT"@ {
            None
        } else {
            Some("FARGATE"@)
        },
        network: if exists_already {
            None
        } else {
            Some(
                NetworkView {
                    subnets: texts_or_none(spec.spec.subnets),
                    security_groups: texts_or_none(spec.spec.security_groups),
                    assign_public_ip: Some(
                        if spec.spec.assign_public_ip {
                            "ENABLED"@
                        } else {
                            "DISABLED"@
                        },
                    ),
                },
            )
        },
        capacity_provider_strategy: strategy_view(spec.spec),
    }
}

fn list_or_none(list: &Option<Vec<String>>) -> (r: Vec<String>)
    ensures
        text::texts(r@) == texts_or_none(*list),
{
    match list {
        Some(list) => text::copy_all(list),
        None => {
            let out: Vec<String> = Vec::new();
            assert(text::texts(out@) =~= Seq::empty());
            out
        },
    }
}

/// Builds the request that creates or updates a service.
pub fn build_service_request(
    spec: &ServiceSpec,
    task_definition: &str,
    exists_already: bool,
) -> (r: ServiceRequest)
    ensures
        r@ == service_request_view(*spec, task_definition@, exists_already),
        r.cluster@ == spec.metadata.cluster@,
        r.service@ == spec.metadata.name@,
        r.task_definition@ == task_definition@,
        r.desired_count == spec.spec.desired_count,
        r.enable_execute_command == spec.spec.exec_enabled,
{
    let spot = text::same(spec.spec.capacity.as_str(), "FARGATE_SPOT");
    let mut capacity_provider_strategy: Vec<CapacityProvider> = Vec::new();
    if spot {
        capacity_provider_strategy.push(
            CapacityProvider { capacity_provider: String::from_str("FARGATE_SPOT"), weight: 1 },
        );
    }
    let network = if exists_already {
        None
    } else {
        Some(
            Network {
                subnets: list_or_none(&spec.spec.subnets),
                security_groups: list_or_none(&spec.spec.security_groups),
                assign_public_ip: Some(
                    if spec.spec.assign_public_ip {
                        String::from_str("ENABLED")
                    } else {
                        String::from_str("DISABLED")
                    },
                ),
            },
        )
    };
    let request = ServiceRequest {
        cluster: spec.metadata.cluster.clone(),
        service: spec.metadata.name.clone(),
        task_definition: String::from_str(task_definition),
        desired_count: spec.spec.desired_count,
        enable_execute_command: spec.spec.exec_enabled,
        launch_type: if exists_already || spot {
            None
        } else {
            Some(String::from_str("FARGATE"))
        },
        network,
        capacity_provider_strategy,
    };
    assert(request@.capacity_provider_strategy =~= strategy_view(spec.spec));
    request
}

/// Whether a service is created or updated, what is asked for is what its specification
/// says: how many tasks it runs, whether commands can be run in them, and what it is
/// called and where; and the task definition that was registered for it.
pub proof fn lemma_request_follows_spec(spec: ServiceSpec, arn: Seq<char>, exists_already: bool)
    ensures
        service_request_view(spec, arn, exists_already).cluster == spec.metadata.cluster@,
        service_request_view(spec, arn, exists_already).service == spec.metadata.name@,
        service_request_view(spec, arn, exists_already).task_definition == arn,
        service_request_view(spec, arn, exists_already).desired_count == spec.spec.desired_count,
        service_request_view(spec, arn, exists_already).enable_execute_command
            == spec.spec.exec_enabled,
        service_request_view(spec, arn, exists_already).capacity_provider_strategy
            == if spec.spec.capacity@ == "FARGATE_SPOT"@ {
            seq![("FARGATE_SPOT"@, 1i32)]
        } else {
            Seq::empty()
        },
{
}

/// A service that exists keeps its network and how it is launched. A new one is given the
/// network of the specification, and a launch type exactly if it has no capacity provider.
pub proof fn lemma_request_for_new_service(spec: ServiceSpec, arn: Seq<char>)
    ensures
        service_request_view(spec, arn, true).network is None,
        service_request_view(spec, arn, true).launch_type is None,
        spec.spec.capacity@ == "FARGATE_SPOT"@ ==> service_request_view(
            spec,
            arn,
            false,
        ).launch_type is None,
        spec.spec.capacity@ != "FARGATE_SPOT"@ ==> service_request_view(
            spec,
            arn,
            false,
        ).launch_type == Some("FARGATE"@),
        service_request_view(spec, arn, false).network matches Some(n) && {
            &&& n.subnets == (match spec.spec.subnets {
                Some(l) => l@.map_values(|s: String| s@),
                None => Seq::empty(),
            })
            &&& n.security_groups == (match spec.spec.security_groups {
                Some(l) => l@.map_values(|s: String| s@),
                None => Seq::empty(),
            })
            &&& n.assign_public_ip == Some(
                if spec.spec.assign_public_ip {
                    "ENABLED"@
                } else {
                    "DISABLED"@
                },
            )
        },
{
}

/// A container is defined as its specification says, setting by setting.
pub proof fn lemma_container_is_defined(
    cs: ContainerSpec,
    service: Seq<char>,
    region: Seq<char>,
)
    requires
        forall|i: int|
            0 <= i < cs.depends_on@.len() ==> (#[trigger] cs.depends_on@[i]).condition
                != DependsOnCondition::Healthy,
    ensures
        define_result(cs, service, region) matches Ok(c) && {
            &&& c.name == Some(cs.name@)
            &&& c.image == Some(cs.image@)
            &&& c.essential == Some(cs.essential)
            &&& c.command == (match cs.command {
                Some(l) => Some(l@.map_values(|s: String| s@)),
                None => None,
            })
            &&& c.entry_point == (match cs.entry_point {
                Some(l) => Some(l@.map_values(|s: String| s@)),
                None => None,
            })
            &&& c.user == (match cs.user {
                Some(u) => Some(u@),
                None => None,
            })
            &&& c.readonly_root_filesystem == Some(true) <==> cs.readonly_root_filesystem
            &&& c.depends_on.len() == cs.depends_on@.len()
            &&& forall|i: int|
                0 <= i < c.depends_on.len() ==> (#[trigger] c.depends_on[i]).0
                    == cs.depends_on@[i].container_name@ && match cs.depends_on@[i].condition {
                    DependsOnCondition::Start => c.depends_on[i].1 is Start,
                    DependsOnCondition::Success => c.depends_on[i].1 is Success,
                    DependsOnCondition::Complete => c.depends_on[i].1 is Complete,
                    DependsOnCondition::Healthy => false,
                }
            &&& c.linux_parameters is Some <==> cs.linux_parameters is Some
            &&& cs.linux_parameters is Some ==> (c.linux_parameters->0 matches Some((added, dropped))
                && added.len() == 0 && dropped
                == cs.linux_parameters->0.capabilities_drop@.map_values(|s: String| s@))
            &&& cs.port > 0 ==> c.port_mappings.len() == 1 && c.port_mappings[0].0 == Some(
                cs.port as i32,
            ) && c.port_mappings[0].1 == Some("tcp"@)
            &&& cs.port == 0 ==> c.port_mappings.len() == 0
            &&& c.log_configuration is Some <==> cs.log_group is Some
            &&& cs.log_group is Some ==> {
                &&& c.log_configuration->0.log_driver == "awslogs"@
                &&& c.log_configuration->0.options matches Some(m)
                    && m.contains_key("awslogs-group"@) && m["awslogs-group"@] == cs.log_group->0@
                    && m.contains_key("awslogs-region"@) && m["awslogs-region"@] == region
                    && m.contains_key("awslogs-stream-prefix"@) && m["awslogs-stream-prefix"@]
                    == service
            }
        },
{
    lemma_none_healthy(cs.depends_on@, 0);
    reveal_strlit("awslogs-group");
    reveal_strlit("awslogs-region");
    reveal_strlit("awslogs-stream-prefix");
    assert("awslogs-group"@.len() == 13);
    assert("awslogs-region"@.len() == 14);
    assert("awslogs-stream-prefix"@.len() == 21);
}

proof fn lemma_none_healthy(deps: Seq<DependsOn>, i: int)
    requires
        0 <= i <= deps.len(),
    ensures
        i <= first_healthy(deps, i) <= deps.len(),
        first_healthy(deps, i) == deps.len() <==> forall|k: int|
            i <= k < deps.len() ==> (#[trigger] deps[k]).condition != DependsOnCondition::Healthy,
        first_healthy(deps, i) < deps.len() ==> deps[first_healthy(deps, i)].condition
            == DependsOnCondition::Healthy,
    decreases deps.len() - i,
{
    if i < deps.len() && deps[i].condition != DependsOnCondition::Healthy {
        lemma_none_healthy(deps, i + 1);
    }
}

/// The variables, secrets and mounts of a container are those of its specification: each
/// of them is there, under its name, and there are no others.
pub proof fn lemma_container_maps_are_defined(
    cs: ContainerSpec,
    service: Seq<char>,
    region: Seq<char>,
)
    requires
        cs.env.ordered(),
        cs.secrets.ordered(),
        cs.mount_points.ordered(),
    ensures
        ({
            let c = container_view(cs, service, region);
            &&& forall|i: int|
                0 <= i < c.environment.len() ==> ((#[trigger] c.environment[i]).0 matches Some(k)
                    && c.environment[i].1 matches Some(v) && cs.env@.contains_key(k)
                    && cs.env@[k]@ == v)
            &&& forall|k: Seq<char>| #[trigger]
                cs.env@.contains_key(k) ==> exists|i: int|
                    0 <= i < c.environment.len() && (#[trigger] c.environment[i]).0 == Some(k)
            &&& forall|i: int|
                0 <= i < c.secrets.len() ==> cs.secrets@.contains_key(
                    (#[trigger] c.secrets[i]).0,
                ) && cs.secrets@[c.secrets[i].0]@ == c.secrets[i].1
            &&& forall|k: Seq<char>| #[trigger]
                cs.secrets@.contains_key(k) ==> exists|i: int|
                    0 <= i < c.secrets.len() && (#[trigger] c.secrets[i]).0 == k
            &&& forall|i: int|
                0 <= i < c.mount_points.len() ==> ((
                #[trigger] c.mount_points[i]).container_path matches Some(path)
                    && cs.mount_points@.contains_key(path) && match cs.mount_points@[path] {
                    MountPointSpec::Volume(v) => c.mount_points[i].source_volume == Some(v@)
                        && c.mount_points[i].read_only == Some(false),
                    MountPointSpec::Detailed { source_volume, read_only } =>
                        c.mount_points[i].source_volume == Some(source_volume@)
                        && c.mount_points[i].read_only == Some(read_only),
                })
            &&& forall|k: Seq<char>| #[trigger]
                cs.mount_points@.contains_key(k) ==> exists|i: int|
                    0 <= i < c.mount_points.len() && (#[trigger] c.mount_points[i]).container_path
                        == Some(k)
        }),
{
    let c = container_view(cs, service, region);
    assert forall|i: int| 0 <= i < c.environment.len() implies ((#[trigger] c.environment[i]).0
        matches Some(k) && c.environment[i].1 matches Some(v) && cs.env@.contains_key(k)
        && cs.env@[k]@ == v) by {
        assert(cs.env@.contains_key(cs.env.key(i)));
    }
    assert forall|k: Seq<char>| #[trigger] cs.env@.contains_key(k) implies exists|i: int|
        0 <= i < c.environment.len() && (#[trigger] c.environment[i]).0 == Some(k) by {
        assert(cs.env.has(k));
        let i = choose|i: int| 0 <= i < cs.env.len_spec() && #[trigger] cs.env.key(i) == k;
        assert(c.environment[i].0 == Some(k));
    }
    assert forall|i: int| 0 <= i < c.secrets.len() implies cs.secrets@.contains_key(
        (#[trigger] c.secrets[i]).0,
    ) && cs.secrets@[c.secrets[i].0]@ == c.secrets[i].1 by {
        assert(cs.secrets@.contains_key(cs.secrets.key(i)));
    }
    assert forall|k: Seq<char>| #[trigger] cs.secrets@.contains_key(k) implies exists|i: int|
        0 <= i < c.secrets.len() && (#[trigger] c.secrets[i]).0 == k by {
        assert(cs.secrets.has(k));
        let i = choose|i: int| 0 <= i < cs.secrets.len_spec() && #[trigger] cs.secrets.key(i) == k;
        assert(c.secrets[i].0 == k);
    }
    assert forall|i: int| 0 <= i < c.mount_points.len() implies ((
    #[trigger] c.mount_points[i]).container_path matches Some(path) && cs.mount_points@.contains_key(
        path,
    ) && match cs.mount_points@[path] {
        MountPointSpec::Volume(v) => c.mount_points[i].source_volume == Some(v@)
            && c.mount_points[i].read_only == Some(false),
        MountPointSpec::Detailed { source_volume, read_only } => c.mount_points[i].source_volume
            == Some(source_volume@) && c.mount_points[i].read_only == Some(read_only),
    }) by {
        assert(cs.mount_points@.contains_key(cs.mount_points.key(i)));
    }
    assert forall|k: Seq<char>| #[trigger] cs.mount_points@.contains_key(k) implies exists|i: int|
        0 <= i < c.mount_points.len() && (#[trigger] c.mount_points[i]).container_path == Some(
            k,
        ) by {
        assert(cs.mount_points.has(k));
        let i = choose|i: int|
            0 <= i < cs.mount_points.len_spec() && #[trigger] cs.mount_points.key(i) == k;
        assert(c.mount_points[i].container_path == Some(k));
    }
}

/// A container cannot be defined exactly if it waits for another one to be healthy.
pub proof fn lemma_healthy_is_not_defined(
    cs: ContainerSpec,
    service: Seq<char>,
    region: Seq<char>,
)
    ensures
        define_result(cs, service, region) is Err <==> exists|i: int|
            0 <= i < cs.depends_on@.len() && (#[trigger] cs.depends_on@[i]).condition
                == DependsOnCondition::Healthy,
{
    lemma_none_healthy(cs.depends_on@, 0);
    let i = first_healthy(cs.depends_on@, 0);
    if i < cs.depends_on@.len() {
        assert(cs.depends_on@[i].condition == DependsOnCondition::Healthy);
    }
}

/// A volume is defined as its specification says: on its file system, or as scratch
/// space without one.
pub proof fn lemma_volume_is_defined(v: VolumeSpec)
    ensures
        volume_view(v).name == Some(v.name@),
        volume_view(v).configured_at_launch == Some(true) <==> v.configured_at_launch,
        !volume_view(v).has_docker_configuration,
        !volume_view(v).has_fsx_configuration,
        volume_view(v).host_source_path is None,
        volume_view(v).efs_volume_configuration is Some <==> v.efs is Some,
        v.efs matches Some(efs) ==> (volume_view(v).efs_volume_configuration matches Some(e) && {
            &&& e.file_system_id == efs.file_system_id@
            &&& e.root_directory == (match efs.root_directory {
                Some(d) => Some(d@),
                None => None,
            })
            &&& e.transit_encryption == (match efs.transit_encryption {
                Some(d) => Some(d@),
                None => None,
            })
            &&& e.transit_encryption_port is None
            &&& e.authorization_config is Some <==> efs.access_point_id is Some || efs.iam is Some
            &&& e.authorization_config matches Some((point, iam)) ==> point == (
            match efs.access_point_id {
                Some(d) => Some(d@),
                None => None,
            }) && iam == (match efs.iam {
                Some(d) => Some(d@),
                None => None,
            })
        }),
{
}

/// A specification without a list of containers describes one: essential, named `app`
/// unless named otherwise, with the settings of the service.
pub proof fn lemma_single_container(spec: Spec, service: Seq<char>, region: Seq<char>)
    requires
        spec.containers is None,
    ensures
        defined_containers(spec, service, region) matches Ok(list) && list.len() == 1 && {
            let c = list[0];
            &&& c.name == Some(
                match spec.container_name {
                    Some(n) => n@,
                    None => "app"@,
                },
            )
            &&& c.image == Some(spec.image@)
            &&& c.essential == Some(true)
            &&& c.command == (match spec.command {
                Some(l) => Some(l@.map_values(|s: String| s@)),
                None => None,
            })
            &&& c.entry_point is None
            &&& c.user is None
            &&& c.readonly_root_filesystem != Some(true)
            &&& c.depends_on.len() == 0
            &&& c.linux_parameters is None
            &&& c.mount_points.len() == 0
            &&& spec.port > 0 ==> c.port_mappings.len() == 1 && c.port_mappings[0].0 == Some(
                spec.port as i32,
            )
            &&& spec.port == 0 ==> c.port_mappings.len() == 0
            &&& c.environment.len() == spec.env.len_spec() || spec.env.len_spec() < 0
            &&& forall|i: int|
                0 <= i < c.environment.len() ==> (#[trigger] c.environment[i]) == (
                    Some(spec.env.key(i)),
                    Some(spec.env.value(i)@),
                )
            &&& c.secrets.len() == spec.secrets.len_spec() || spec.secrets.len_spec() < 0
            &&& forall|i: int|
                0 <= i < c.secrets.len() ==> (#[trigger] c.secrets[i]) == (
                    spec.secrets.key(i),
                    spec.secrets.value(i)@,
                )
            &&& c.log_configuration is Some <==> spec.log_group is Some
            &&& spec.log_group is Some ==> (c.log_configuration->0.options matches Some(m)
                && m["awslogs-group"@] == spec.log_group->0@ && m["awslogs-region"@] == region
                && m["awslogs-stream-prefix"@] == service)
        },
{
    reveal_strlit("awslogs-group");
    reveal_strlit("awslogs-region");
    reveal_strlit("awslogs-stream-prefix");
    assert("awslogs-group"@.len() == 13);
    assert("awslogs-region"@.len() == 14);
    assert("awslogs-stream-prefix"@.len() == 21);
}

proof fn lemma_defined_in_order(
    list: Seq<ContainerSpec>,
    service: Seq<char>,
    region: Seq<char>,
    n: int,
)
    requires
        0 <= n <= list.len(),
    ensures
        define_each(list, service, region, n) matches Ok(out) ==> out.len() == n && forall|i: int|
            0 <= i < n ==> define_result(list[i], service, region) == Ok::<
                ContainerView,
                (DefineProblem, Seq<char>),
            >(#[trigger] out[i]),
        define_each(list, service, region, n) is Err <==> exists|i: int|
            0 <= i < n && define_result(#[trigger] list[i], service, region) is Err,
    decreases n,
{
    if n > 0 {
        lemma_defined_in_order(list, service, region, n - 1);
        if define_each(list, service, region, n) is Ok {
            let before = define_each(list, service, region, n - 1)->Ok_0;
            let out = define_each(list, service, region, n)->Ok_0;
            assert forall|i: int| 0 <= i < n implies define_result(list[i], service, region) == Ok::<
                ContainerView,
                (DefineProblem, Seq<char>),
            >(#[trigger] out[i]) by {
                if i < n - 1 {
                    assert(out[i] == before[i]);
                }
            }
        } else if define_each(list, service, region, n - 1) is Ok {
            assert(define_result(list[n - 1], service, region) is Err);
        }
    }
}

/// The containers of a list are all defined, in their order.
pub proof fn lemma_all_are_defined(spec: Spec, service: Seq<char>, region: Seq<char>)
    requires
        spec.containers is Some,
    ensures
        defined_containers(spec, service, region) matches Ok(out) ==> out.len()
            == spec.containers->0@.len() && forall|i: int|
            0 <= i < out.len() ==> define_result(spec.containers->0@[i], service, region) == Ok::<
                ContainerView,
                (DefineProblem, Seq<char>),
            >(#[trigger] out[i]),
        defined_containers(spec, service, region) is Err <==> exists|i: int|
            0 <= i < spec.containers->0@.len() && define_result(
                #[trigger] spec.containers->0@[i],
                service,
                region,
            ) is Err,
{
    let list = spec.containers->0@;
    lemma_defined_in_order(list, service, region, list.len() as int);
}

/// The task definition of a service is a Fargate one of the size, the architecture, the
/// roles and the volumes that the specification names.
pub proof fn lemma_task_follows_spec(spec: ServiceSpec, region: Seq<char>)
    requires
        registration(spec, region) is Ok,
    ensures
        ({
            let td = registration(spec, region)->Ok_0;
            &&& td.family == Some(spec.metadata.name@)
            &&& td.cpu == Some(spec.spec.cpu@)
            &&& td.memory == Some(spec.spec.memory@)
            &&& td.cpu_architecture == Some(spec.spec.arch@)
            &&& td.network_mode == Some("awsvpc"@)
            &&& td.operating_system_family == Some("LINUX"@)
            &&& td.requires_compatibilities == seq!["FARGATE"@]
            &&& td.execution_role_arn == (match spec.spec.execution_role_arn {
                Some(r) => Some(r@),
                None => None,
            })
            &&& td.task_role_arn == (match spec.spec.task_role_arn {
                Some(r) => Some(r@),
                None => None,
            })
            &&& td.volumes.len() == spec.spec.volumes@.len()
            &&& forall|i: int|
                0 <= i < td.volumes.len() ==> (#[trigger] td.volumes[i]).name == Some(
                    spec.spec.volumes@[i].name@,
                )
            &&& defined_containers(spec.spec, spec.metadata.name@, region) == Ok::<
                Seq<ContainerView>,
                (DefineProblem, Seq<char>),
            >(td.container_definitions)
        }),
{
}

/// The container of a specification without a list is essential, has the image, the port and
/// the command of the specification, and waits for nothing and mounts nothing.
pub proof fn lemma_container_without_list(spec: Spec, cs: ContainerSpec)
    requires
        is_single_container(spec, cs),
    ensures
        spec.container_name matches Some(name) ==> cs.name@ == name@,
        spec.container_name is None ==> cs.name@ == "app"@,
        cs.image@ == spec.image@,
        cs.essential && !cs.readonly_root_filesystem,
        cs.port == spec.port,
        cs.command is Some <==> spec.command is Some,
        spec.command matches Some(l) ==> (cs.command matches Some(k) && k@.len() == l@.len()),
        cs.entry_point is None && cs.user is None && cs.linux_parameters is None,
        cs.depends_on@.len() == 0 && cs.mount_points.len_spec() == 0,
        cs.log_group is Some <==> spec.log_group is Some,
{
    if let Some(l) = spec.command {
        assert(crate::ecs::opt_texts(cs.command)->0.len() == crate::ecs::opt_texts(
            spec.command,
        )->0.len());
    }
}

} // verus!
