//! The parts of ECS's data that the rules of this library read and write.

use crate::strmap::StrMap;
use crate::text;
use crate::textmap;
use vstd::prelude::*;

verus! {

/// The texts of an optional list of strings.
pub open spec fn opt_texts(list: Option<Vec<String>>) -> Option<Seq<Seq<char>>> {
    match list {
        Some(list) => Some(text::texts(list@)),
        None => None,
    }
}

/// The state that another container has to reach first.
#[derive(Debug)]
pub enum ContainerCondition {
    Start,
    Success,
    Complete,
    Healthy,
    /// A condition that is not known here, by its word.
    Other(String),
}

/// What a [`ContainerCondition`] says.
pub enum ConditionView {
    Start,
    Success,
    Complete,
    Healthy,
    Other(Seq<char>),
}

impl View for ContainerCondition {
    type V = ConditionView;

    open spec fn view(&self) -> ConditionView {
        match self {
            ContainerCondition::Start => ConditionView::Start,
            ContainerCondition::Success => ConditionView::Success,
            ContainerCondition::Complete => ConditionView::Complete,
            ContainerCondition::Healthy => ConditionView::Healthy,
            ContainerCondition::Other(w) => ConditionView::Other(w@),
        }
    }
}

impl ConditionView {
    /// The word for a condition.
    pub open spec fn word(self) -> Seq<char> {
        match self {
            ConditionView::Start => "START"@,
            ConditionView::Success => "SUCCESS"@,
            ConditionView::Complete => "COMPLETE"@,
            ConditionView::Healthy => "HEALTHY"@,
            ConditionView::Other(w) => w,
        }
    }
}

impl ContainerCondition {
    /// The word for a condition.
    pub fn as_str(&self) -> (r: &str)
        ensures
            r@ == self@.word(),
    {
        match self {
            ContainerCondition::Start => "START",
            ContainerCondition::Success => "SUCCESS",
            ContainerCondition::Complete => "COMPLETE",
            ContainerCondition::Healthy => "HEALTHY",
            ContainerCondition::Other(w) => w.as_str(),
        }
    }
}

/// A container that another one waits for.
#[derive(Debug)]
pub struct ContainerDependency {
    pub container_name: String,
    pub condition: ContainerCondition,
}

impl View for ContainerDependency {
    type V = (Seq<char>, ConditionView);

    open spec fn view(&self) -> (Seq<char>, ConditionView) {
        (self.container_name@, self.condition@)
    }
}

/// The Linux capabilities that a container gains and gives up.
#[derive(Debug)]
pub struct KernelCapabilities {
    pub added: Vec<String>,
    pub dropped: Vec<String>,
}

impl View for KernelCapabilities {
    type V = (Seq<Seq<char>>, Seq<Seq<char>>);

    open spec fn view(&self) -> (Seq<Seq<char>>, Seq<Seq<char>>) {
        (text::texts(self.added@), text::texts(self.dropped@))
    }
}

/// The Linux settings of a container.
#[derive(Debug)]
pub struct LinuxSettings {
    pub capabilities: Option<KernelCapabilities>,
}

impl View for LinuxSettings {
    type V = Option<(Seq<Seq<char>>, Seq<Seq<char>>)>;

    open spec fn view(&self) -> Option<(Seq<Seq<char>>, Seq<Seq<char>>)> {
        match self.capabilities {
            Some(c) => Some(c@),
            None => None,
        }
    }
}

/// A volume of the task in the file system of a container.
#[derive(Debug)]
pub struct MountPoint {
    pub source_volume: Option<String>,
    pub container_path: Option<String>,
    pub read_only: Option<bool>,
}

/// What a [`MountPoint`] says.
#[verifier::ext_equal]
pub struct MountPointView {
    pub source_volume: Option<Seq<char>>,
    pub container_path: Option<Seq<char>>,
    pub read_only: Option<bool>,
}

impl View for MountPoint {
    type V = MountPointView;

    open spec fn view(&self) -> MountPointView {
        MountPointView {
            source_volume: text::opt_text(self.source_volume),
            container_path: text::opt_text(self.container_path),
            read_only: self.read_only,
        }
    }
}

/// A port that a container listens on.
#[derive(Debug)]
pub struct PortMapping {
    pub container_port: Option<i32>,
    pub protocol: Option<String>,
}

impl View for PortMapping {
    type V = (Option<i32>, Option<Seq<char>>);

    open spec fn view(&self) -> (Option<i32>, Option<Seq<char>>) {
        (self.container_port, text::opt_text(self.protocol))
    }
}

/// An environment variable of a container.
#[derive(Debug)]
pub struct KeyValuePair {
    pub name: Option<String>,
    pub value: Option<String>,
}

impl View for KeyValuePair {
    type V = (Option<Seq<char>>, Option<Seq<char>>);

    open spec fn view(&self) -> (Option<Seq<char>>, Option<Seq<char>>) {
        (text::opt_text(self.name), text::opt_text(self.value))
    }
}

/// An environment variable whose value is kept elsewhere.
#[derive(Debug)]
pub struct Secret {
    pub name: String,
    pub value_from: String,
}

impl View for Secret {
    type V = (Seq<char>, Seq<char>);

    open spec fn view(&self) -> (Seq<char>, Seq<char>) {
        (self.name@, self.value_from@)
    }
}

/// Where the output of a container goes.
#[derive(Debug)]
pub struct LogConfiguration {
    pub log_driver: String,
    pub options: Option<StrMap<String>>,
}

/// What a [`LogConfiguration`] says.
#[verifier::ext_equal]
pub struct LogView {
    pub log_driver: Seq<char>,
    pub options: Option<Map<Seq<char>, Seq<char>>>,
}

impl View for LogConfiguration {
    type V = LogView;

    open spec fn view(&self) -> LogView {
        LogView {
            log_driver: self.log_driver@,
            options: match self.options {
                Some(m) => Some(textmap::text_map(m)),
                None => None,
            },
        }
    }
}

/// A container of a task definition.
#[derive(Debug)]
pub struct ContainerDefinition {
    pub name: Option<String>,
    pub image: Option<String>,
    pub essential: Option<bool>,
    pub command: Option<Vec<String>>,
    pub entry_point: Option<Vec<String>>,
    pub user: Option<String>,
    pub readonly_root_filesystem: Option<bool>,
    pub depends_on: Vec<ContainerDependency>,
    pub linux_parameters: Option<LinuxSettings>,
    pub mount_points: Vec<MountPoint>,
    pub port_mappings: Vec<PortMapping>,
    pub environment: Vec<KeyValuePair>,
    pub secrets: Vec<Secret>,
    pub log_configuration: Option<LogConfiguration>,
}

/// What a [`ContainerDefinition`] says.
#[verifier::ext_equal]
pub struct ContainerView {
    pub name: Option<Seq<char>>,
    pub image: Option<Seq<char>>,
    pub essential: Option<bool>,
    pub command: Option<Seq<Seq<char>>>,
    pub entry_point: Option<Seq<Seq<char>>>,
    pub user: Option<Seq<char>>,
    pub readonly_root_filesystem: Option<bool>,
    pub depends_on: Seq<(Seq<char>, ConditionView)>,
    pub linux_parameters: Option<Option<(Seq<Seq<char>>, Seq<Seq<char>>)>>,
    pub mount_points: Seq<MountPointView>,
    pub port_mappings: Seq<(Option<i32>, Option<Seq<char>>)>,
    pub environment: Seq<(Option<Seq<char>>, Option<Seq<char>>)>,
    pub secrets: Seq<(Seq<char>, Seq<char>)>,
    pub log_configuration: Option<LogView>,
}

impl View for ContainerDefinition {
    type V = ContainerView;

    open spec fn view(&self) -> ContainerView {
        ContainerView {
            name: text::opt_text(self.name),
            image: text::opt_text(self.image),
            essential: self.essential,
            command: opt_texts(self.command),
            entry_point: opt_texts(self.entry_point),
            user: text::opt_text(self.user),
            readonly_root_filesystem: self.readonly_root_filesystem,
            depends_on: self.depends_on@.map_values(|d: ContainerDependency| d@),
            linux_parameters: match self.linux_parameters {
                Some(lp) => Some(lp@),
                None => None,
            },
            mount_points: self.mount_points@.map_values(|m: MountPoint| m@),
            port_mappings: self.port_mappings@.map_values(|p: PortMapping| p@),
            environment: self.environment@.map_values(|kv: KeyValuePair| kv@),
            secrets: self.secrets@.map_values(|s: Secret| s@),
            log_configuration: match self.log_configuration {
                Some(lc) => Some(lc@),
                None => None,
            },
        }
    }
}

/// How a volume is reached on an EFS file system.
#[derive(Debug)]
pub struct EfsAuthorization {
    pub access_point_id: Option<String>,
    pub iam: Option<String>,
}

impl View for EfsAuthorization {
    type V = (Option<Seq<char>>, Option<Seq<char>>);

    open spec fn view(&self) -> (Option<Seq<char>>, Option<Seq<char>>) {
        (text::opt_text(self.access_point_id), text::opt_text(self.iam))
    }
}

/// An EFS file system behind a volume.
#[derive(Debug)]
pub struct EfsVolumeConfiguration {
    pub file_system_id: String,
    pub root_directory: Option<String>,
    pub transit_encryption: Option<String>,
    pub transit_encryption_port: Option<i32>,
    pub authorization_config: Option<EfsAuthorization>,
}

/// What an [`EfsVolumeConfiguration`] says.
#[verifier::ext_equal]
pub struct EfsView {
    pub file_system_id: Seq<char>,
    pub root_directory: Option<Seq<char>>,
    pub transit_encryption: Option<Seq<char>>,
    pub transit_encryption_port: Option<i32>,
    pub authorization_config: Option<(Option<Seq<char>>, Option<Seq<char>>)>,
}

impl View for EfsVolumeConfiguration {
    type V = EfsView;

    open spec fn view(&self) -> EfsView {
        EfsView {
            file_system_id: self.file_system_id@,
            root_directory: text::opt_text(self.root_directory),
            transit_encryption: text::opt_text(self.transit_encryption),
            transit_encryption_port: self.transit_encryption_port,
            authorization_config: match self.authorization_config {
                Some(a) => Some(a@),
                None => None,
            },
        }
    }
}

/// A volume of a task definition.
#[derive(Debug)]
pub struct Volume {
    pub name: Option<String>,
    /// Whether the volume is set up by a Docker volume driver.
    pub has_docker_configuration: bool,
    /// Whether the volume is an FSx for Windows file system.
    pub has_fsx_configuration: bool,
    /// The path on the host that is mounted.
    pub host_source_path: Option<String>,
    pub configured_at_launch: Option<bool>,
    pub efs_volume_configuration: Option<EfsVolumeConfiguration>,
}

/// What a [`Volume`] says.
#[verifier::ext_equal]
pub struct VolumeView {
    pub name: Option<Seq<char>>,
    pub has_docker_configuration: bool,
    pub has_fsx_configuration: bool,
    pub host_source_path: Option<Seq<char>>,
    pub configured_at_launch: Option<bool>,
    pub efs_volume_configuration: Option<EfsView>,
}

impl View for Volume {
    type V = VolumeView;

    open spec fn view(&self) -> VolumeView {
        VolumeView {
            name: text::opt_text(self.name),
            has_docker_configuration: self.has_docker_configuration,
            has_fsx_configuration: self.has_fsx_configuration,
            host_source_path: text::opt_text(self.host_source_path),
            configured_at_launch: self.configured_at_launch,
            efs_volume_configuration: match self.efs_volume_configuration {
                Some(e) => Some(e@),
                None => None,
            },
        }
    }
}

/// A task definition.
#[derive(Debug)]
pub struct TaskDefinition {
    pub family: Option<String>,
    pub cpu: Option<String>,
    pub memory: Option<String>,
    pub network_mode: Option<String>,
    pub requires_compatibilities: Vec<String>,
    pub cpu_architecture: Option<String>,
    pub operating_system_family: Option<String>,
    pub container_definitions: Vec<ContainerDefinition>,
    pub volumes: Vec<Volume>,
    pub execution_role_arn: Option<String>,
    pub task_role_arn: Option<String>,
}

/// What a [`TaskDefinition`] says.
#[verifier::ext_equal]
pub struct TaskDefinitionView {
    pub family: Option<Seq<char>>,
    pub cpu: Option<Seq<char>>,
    pub memory: Option<Seq<char>>,
    pub network_mode: Option<Seq<char>>,
    pub requires_compatibilities: Seq<Seq<char>>,
    pub cpu_architecture: Option<Seq<char>>,
    pub operating_system_family: Option<Seq<char>>,
    pub container_definitions: Seq<ContainerView>,
    pub volumes: Seq<VolumeView>,
    pub execution_role_arn: Option<Seq<char>>,
    pub task_role_arn: Option<Seq<char>>,
}

impl View for TaskDefinition {
    type V = TaskDefinitionView;

    open spec fn view(&self) -> TaskDefinitionView {
        TaskDefinitionView {
            family: text::opt_text(self.family),
            cpu: text::opt_text(self.cpu),
            memory: text::opt_text(self.memory),
            network_mode: text::opt_text(self.network_mode),
            requires_compatibilities: text::texts(self.requires_compatibilities@),
            cpu_architecture: text::opt_text(self.cpu_architecture),
            operating_system_family: text::opt_text(self.operating_system_family),
            container_definitions: self.container_definitions@.map_values(
                |c: ContainerDefinition| c@,
            ),
            volumes: self.volumes@.map_values(|v: Volume| v@),
            execution_role_arn: text::opt_text(self.execution_role_arn),
            task_role_arn: text::opt_text(self.task_role_arn),
        }
    }
}

/// The network of a service.
#[derive(Debug)]
pub struct Network {
    pub subnets: Vec<String>,
    pub security_groups: Vec<String>,
    pub assign_public_ip: Option<String>,
}

/// What a [`Network`] says.
#[verifier::ext_equal]
pub struct NetworkView {
    pub subnets: Seq<Seq<char>>,
    pub security_groups: Seq<Seq<char>>,
    pub assign_public_ip: Option<Seq<char>>,
}

impl View for Network {
    type V = NetworkView;

    open spec fn view(&self) -> NetworkView {
        NetworkView {
            subnets: text::texts(self.subnets@),
            security_groups: text::texts(self.security_groups@),
            assign_public_ip: text::opt_text(self.assign_public_ip),
        }
    }
}

/// A share of the tasks of a service that a capacity provider runs.
#[derive(Debug)]
pub struct CapacityProvider {
    pub capacity_provider: String,
    pub weight: i32,
}

impl View for CapacityProvider {
    type V = (Seq<char>, i32);

    open spec fn view(&self) -> (Seq<char>, i32) {
        (self.capacity_provider@, self.weight)
    }
}

/// What a service is asked to be.
#[derive(Debug)]
pub struct ServiceRequest {
    pub cluster: String,
    pub service: String,
    pub task_definition: String,
    pub desired_count: i32,
    pub enable_execute_command: bool,
    pub launch_type: Option<String>,
    /// The network, which an update leaves as it is.
    pub network: Option<Network>,
    pub capacity_provider_strategy: Vec<CapacityProvider>,
}

/// What a [`ServiceRequest`] says.
#[verifier::ext_equal]
pub struct ServiceRequestView {
    pub cluster: Seq<char>,
    pub service: Seq<char>,
    pub task_definition: Seq<char>,
    pub desired_count: i32,
    pub enable_execute_command: bool,
    pub launch_type: Option<Seq<char>>,
    pub network: Option<NetworkView>,
    pub capacity_provider_strategy: Seq<(Seq<char>, i32)>,
}

impl View for ServiceRequest {
    type V = ServiceRequestView;

    open spec fn view(&self) -> ServiceRequestView {
        ServiceRequestView {
            cluster: self.cluster@,
            service: self.service@,
            task_definition: self.task_definition@,
            desired_count: self.desired_count,
            enable_execute_command: self.enable_execute_command,
            launch_type: text::opt_text(self.launch_type),
            network: match self.network {
                Some(n) => Some(n@),
                None => None,
            },
            capacity_provider_strategy: self.capacity_provider_strategy@.map_values(
                |c: CapacityProvider| c@,
            ),
        }
    }
}

/// A service, as ECS describes it.
#[derive(Debug)]
pub struct ServiceDescription {
    pub task_definition: Option<String>,
    pub desired_count: i32,
    pub enable_execute_command: bool,
    pub network: Option<Network>,
    /// The capacity providers, in the order of the strategy.
    pub capacity_providers: Vec<String>,
}

/// What a [`ServiceDescription`] says.
#[verifier::ext_equal]
pub struct ServiceView {
    pub task_definition: Option<Seq<char>>,
    pub desired_count: i32,
    pub enable_execute_command: bool,
    pub network: Option<NetworkView>,
    pub capacity_providers: Seq<Seq<char>>,
}

impl View for ServiceDescription {
    type V = ServiceView;

    open spec fn view(&self) -> ServiceView {
        ServiceView {
            task_definition: text::opt_text(self.task_definition),
            desired_count: self.desired_count,
            enable_execute_command: self.enable_execute_command,
            network: match self.network {
                Some(n) => Some(n@),
                None => None,
            },
            capacity_providers: text::texts(self.capacity_providers@),
        }
    }
}

} // verus!
