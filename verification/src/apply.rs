//! What a service specification holds.

use crate::ecs;
use crate::strmap::StrMap;
use crate::text;
use crate::text::same;
use crate::textmap;
use vstd::prelude::*;

verus! {

/// A service to deploy, as a specification file describes it.
#[derive(Debug)]
pub struct ServiceSpec {
    pub api_version: Option<String>,
    pub kind: Option<String>,
    pub metadata: Metadata,
    pub spec: Spec,
}

/// The name of a service and of the cluster it runs in.
#[derive(Debug)]
pub struct Metadata {
    pub name: String,
    pub cluster: String,
}

/// A container that waits for another one.
#[derive(Debug)]
pub struct DependsOn {
    pub container_name: String,
    pub condition: DependsOnCondition,
}

/// The four container dependency conditions of ECS.
///
/// `Healthy` is a value of this type although validation refuses it: a file
/// that uses it is then answered with the reason (it needs a health check that
/// a specification cannot configure) rather than as an unknown word.
#[derive(Debug, Clone, Copy, PartialEq, Eq, Structural)]
pub enum DependsOnCondition {
    Start,
    Complete,
    Success,
    Healthy,
}

impl DependsOnCondition {
    /// The word for a condition.
    pub open spec fn word(self) -> Seq<char> {
        match self {
            DependsOnCondition::Start => "START"@,
            DependsOnCondition::Complete => "COMPLETE"@,
            DependsOnCondition::Success => "SUCCESS"@,
            DependsOnCondition::Healthy => "HEALTHY"@,
        }
    }

    /// The word that ECS and the specification file use for a condition.
    pub fn as_str(self) -> (r: &'static str)
        ensures
            r@ == self.word(),
    {
        match self {
            DependsOnCondition::Start => "START",
            DependsOnCondition::Complete => "COMPLETE",
            DependsOnCondition::Success => "SUCCESS",
            DependsOnCondition::Healthy => "HEALTHY",
        }
    }
}

/// The Linux capabilities that a container gives up.
#[derive(Debug)]
pub struct LinuxParameters {
    pub capabilities_drop: Vec<String>,
}

/// A container's mount of a volume of the task: the name of the volume alone,
/// which mounts it for reading and writing, or the long form.
#[derive(Debug)]
pub enum MountPointSpec {
    Volume(String),
    Detailed { source_volume: String, read_only: bool },
}

impl MountPointSpec {
    /// The name of the volume that is mounted.
    pub open spec fn volume(self) -> Seq<char> {
        match self {
            MountPointSpec::Volume(v) => v@,
            MountPointSpec::Detailed { source_volume, .. } => source_volume@,
        }
    }

    /// Whether the mount can only be read.
    pub open spec fn is_read_only(self) -> bool {
        match self {
            MountPointSpec::Volume(_) => false,
            MountPointSpec::Detailed { read_only, .. } => read_only,
        }
    }

    /// The name of the volume that is mounted.
    pub fn source_volume(&self) -> (r: &str)
        ensures
            r@ == self.volume(),
    {
        match self {
            MountPointSpec::Volume(v) => v.as_str(),
            MountPointSpec::Detailed { source_volume, .. } => source_volume.as_str(),
        }
    }

    /// Whether the mount can only be read.
    pub fn read_only(&self) -> (r: bool)
        ensures
            r == self.is_read_only(),
    {
        match self {
            MountPointSpec::Volume(_) => false,
            MountPointSpec::Detailed { read_only, .. } => *read_only,
        }
    }
}

/// One container of a task.
#[derive(Debug)]
pub struct ContainerSpec {
    pub name: String,
    pub image: String,
    pub essential: bool,
    pub port: u16,
    pub command: Option<Vec<String>>,
    pub entry_point: Option<Vec<String>>,
    pub env: StrMap<String>,
    pub secrets: StrMap<String>,
    pub log_group: Option<String>,
    /// The user that the container runs as, such as "0" for root.
    pub user: Option<String>,
    pub readonly_root_filesystem: bool,
    /// The containers that this one waits for before it starts.
    pub depends_on: Vec<DependsOn>,
    pub linux_parameters: Option<LinuxParameters>,
    /// The mounts, by the path in the container.
    pub mount_points: StrMap<MountPointSpec>,
}

/// An EFS file system behind a volume. EFS is the only lasting volume type that
/// Fargate offers.
#[derive(Debug)]
pub struct EfsVolumeSpec {
    pub file_system_id: String,
    pub root_directory: Option<String>,
    pub transit_encryption: Option<String>,
    pub access_point_id: Option<String>,
    pub iam: Option<String>,
}

/// A volume of the task. Without a file system it is scratch space that ECS
/// manages.
#[derive(Debug)]
pub struct VolumeSpec {
    pub name: String,
    pub efs: Option<EfsVolumeSpec>,
    /// Whether the volume is configured when a task starts.
    pub configured_at_launch: bool,
}

/// How a service is run.
#[derive(Debug)]
pub struct Spec {
    pub image: String,
    pub cpu: String,
    pub memory: String,
    pub arch: String,
    pub capacity: String,
    pub desired_count: i32,
    pub exec_enabled: bool,
    pub env: StrMap<String>,
    pub secrets: StrMap<String>,
    pub log_group: Option<String>,
    pub execution_role_arn: Option<String>,
    pub task_role_arn: Option<String>,
    pub subnets: Option<Vec<String>>,
    pub security_groups: Option<Vec<String>>,
    pub assign_public_ip: bool,
    pub container_name: Option<String>,
    pub port: u16,
    pub command: Option<Vec<String>>,
    pub containers: Option<Vec<ContainerSpec>>,
    /// The volumes that the mount points of the containers name.
    pub volumes: Vec<VolumeSpec>,
}

/// What a [`MountPointSpec`] says.
pub enum MountSpecView {
    Volume(Seq<char>),
    Detailed { source_volume: Seq<char>, read_only: bool },
}

impl View for MountPointSpec {
    type V = MountSpecView;

    open spec fn view(&self) -> MountSpecView {
        match self {
            MountPointSpec::Volume(v) => MountSpecView::Volume(v@),
            MountPointSpec::Detailed { source_volume, read_only } => MountSpecView::Detailed {
                source_volume: source_volume@,
                read_only: *read_only,
            },
        }
    }
}

/// What a [`ContainerSpec`] says.
#[verifier::ext_equal]
pub struct ContainerSpecView {
    pub name: Seq<char>,
    pub image: Seq<char>,
    pub essential: bool,
    pub port: u16,
    pub command: Option<Seq<Seq<char>>>,
    pub entry_point: Option<Seq<Seq<char>>>,
    pub env: Map<Seq<char>, Seq<char>>,
    pub secrets: Map<Seq<char>, Seq<char>>,
    pub log_group: Option<Seq<char>>,
    pub user: Option<Seq<char>>,
    pub readonly_root_filesystem: bool,
    pub depends_on: Seq<(Seq<char>, DependsOnCondition)>,
    pub capabilities_drop: Option<Seq<Seq<char>>>,
    pub mount_points: Map<Seq<char>, MountSpecView>,
}

impl View for ContainerSpec {
    type V = ContainerSpecView;

    open spec fn view(&self) -> ContainerSpecView {
        ContainerSpecView {
            name: self.name@,
            image: self.image@,
            essential: self.essential,
            port: self.port,
            command: ecs::opt_texts(self.command),
            entry_point: ecs::opt_texts(self.entry_point),
            env: textmap::text_map(self.env),
            secrets: textmap::text_map(self.secrets),
            log_group: text::opt_text(self.log_group),
            user: text::opt_text(self.user),
            readonly_root_filesystem: self.readonly_root_filesystem,
            depends_on: self.depends_on@.map_values(
                |d: DependsOn| (d.container_name@, d.condition),
            ),
            capabilities_drop: match self.linux_parameters {
                Some(lp) => Some(text::texts(lp.capabilities_drop@)),
                None => None,
            },
            mount_points: self.mount_points@.map_values(|m: MountPointSpec| m@),
        }
    }
}

/// What an [`EfsVolumeSpec`] says.
#[verifier::ext_equal]
pub struct EfsSpecView {
    pub file_system_id: Seq<char>,
    pub root_directory: Option<Seq<char>>,
    pub transit_encryption: Option<Seq<char>>,
    pub access_point_id: Option<Seq<char>>,
    pub iam: Option<Seq<char>>,
}

impl View for EfsVolumeSpec {
    type V = EfsSpecView;

    open spec fn view(&self) -> EfsSpecView {
        EfsSpecView {
            file_system_id: self.file_system_id@,
            root_directory: text::opt_text(self.root_directory),
            transit_encryption: text::opt_text(self.transit_encryption),
            access_point_id: text::opt_text(self.access_point_id),
            iam: text::opt_text(self.iam),
        }
    }
}

/// What a [`VolumeSpec`] says.
#[verifier::ext_equal]
pub struct VolumeSpecView {
    pub name: Seq<char>,
    pub efs: Option<EfsSpecView>,
    pub configured_at_launch: bool,
}

impl View for VolumeSpec {
    type V = VolumeSpecView;

    open spec fn view(&self) -> VolumeSpecView {
        VolumeSpecView {
            name: self.name@,
            efs: match self.efs {
                Some(efs) => Some(efs@),
                None => None,
            },
            configured_at_launch: self.configured_at_launch,
        }
    }
}

/// What a [`Spec`] says.
#[verifier::ext_equal]
pub struct SpecView {
    pub image: Seq<char>,
    pub cpu: Seq<char>,
    pub memory: Seq<char>,
    pub arch: Seq<char>,
    pub capacity: Seq<char>,
    pub desired_count: i32,
    pub exec_enabled: bool,
    pub env: Map<Seq<char>, Seq<char>>,
    pub secrets: Map<Seq<char>, Seq<char>>,
    pub log_group: Option<Seq<char>>,
    pub execution_role_arn: Option<Seq<char>>,
    pub task_role_arn: Option<Seq<char>>,
    pub subnets: Option<Seq<Seq<char>>>,
    pub security_groups: Option<Seq<Seq<char>>>,
    pub assign_public_ip: bool,
    pub container_name: Option<Seq<char>>,
    pub port: u16,
    pub command: Option<Seq<Seq<char>>>,
    pub containers: Option<Seq<ContainerSpecView>>,
    pub volumes: Seq<VolumeSpecView>,
}

impl View for Spec {
    type V = SpecView;

    open spec fn view(&self) -> SpecView {
        SpecView {
            image: self.image@,
            cpu: self.cpu@,
            memory: self.memory@,
            arch: self.arch@,
            capacity: self.capacity@,
            desired_count: self.desired_count,
            exec_enabled: self.exec_enabled,
            env: textmap::text_map(self.env),
            secrets: textmap::text_map(self.secrets),
            log_group: text::opt_text(self.log_group),
            execution_role_arn: text::opt_text(self.execution_role_arn),
            task_role_arn: text::opt_text(self.task_role_arn),
            subnets: ecs::opt_texts(self.subnets),
            security_groups: ecs::opt_texts(self.security_groups),
            assign_public_ip: self.assign_public_ip,
            container_name: text::opt_text(self.container_name),
            port: self.port,
            command: ecs::opt_texts(self.command),
            containers: match self.containers {
                Some(list) => Some(list@.map_values(|c: ContainerSpec| c@)),
                None => None,
            },
            volumes: self.volumes@.map_values(|v: VolumeSpec| v@),
        }
    }
}

/// What a [`ServiceSpec`] says.
#[verifier::ext_equal]
pub struct ServiceSpecView {
    pub api_version: Option<Seq<char>>,
    pub kind: Option<Seq<char>>,
    pub name: Seq<char>,
    pub cluster: Seq<char>,
    pub spec: SpecView,
}

impl View for ServiceSpec {
    type V = ServiceSpecView;

    open spec fn view(&self) -> ServiceSpecView {
        ServiceSpecView {
            api_version: text::opt_text(self.api_version),
            kind: text::opt_text(self.kind),
            name: self.metadata.name@,
            cluster: self.metadata.cluster@,
            spec: self.spec@,
        }
    }
}

/// Whether a container is essential where a file does not say.
pub fn default_essential() -> (r: bool)
    ensures
        r,
{
    true
}

/// The architecture where a file does not name one.
pub fn default_arch() -> (r: String)
    ensures
        r@ == "X86_64"@,
{
    String::from_str("X86_64")
}

/// The capacity where a file does not name one.
pub fn default_capacity() -> (r: String)
    ensures
        r@ == "FARGATE"@,
{
    String::from_str("FARGATE")
}

/// The number of tasks where a file does not name one.
pub fn default_count() -> (r: i32)
    ensures
        r == 1,
{
    1
}

/// The port where a file does not name one: none.
pub fn default_port() -> (r: u16)
    ensures
        r == 0,
{
    0
}

/// The Linux capabilities that ECS lets a container drop.
pub open spec fn known_capabilities() -> Seq<Seq<char>> {
    seq![
        "ALL"@,
        "AUDIT_CONTROL"@,
        "AUDIT_WRITE"@,
        "BLOCK_SUSPEND"@,
        "CHOWN"@,
        "DAC_OVERRIDE"@,
        "DAC_READ_SEARCH"@,
        "FOWNER"@,
        "FSETID"@,
        "IPC_LOCK"@,
        "IPC_OWNER"@,
        "KILL"@,
        "LEASE"@,
        "LINUX_IMMUTABLE"@,
        "MAC_ADMIN"@,
        "MAC_OVERRIDE"@,
        "MKNOD"@,
        "NET_ADMIN"@,
        "NET_BIND_SERVICE"@,
        "NET_BROADCAST"@,
        "NET_RAW"@,
        "SETFCAP"@,
        "SETGID"@,
        "SETPCAP"@,
        "SETUID"@,
        "SYS_ADMIN"@,
        "SYS_BOOT"@,
        "SYS_CHROOT"@,
        "SYS_MODULE"@,
        "SYS_NICE"@,
        "SYS_PACCT"@,
        "SYS_PTRACE"@,
        "SYS_RAWIO"@,
        "SYS_RESOURCE"@,
        "SYS_TIME"@,
        "SYS_TTY_CONFIG"@,
        "SYSLOG"@,
        "WAKE_ALARM"@,
    ]
}

/// Whether ECS lets a container drop a capability of this name.
pub fn is_known_capability(name: &str) -> (r: bool)
    ensures
        r == known_capabilities().contains(name@),
{
    let known: [&str; 38] = [
        "ALL",
        "AUDIT_CONTROL",
        "AUDIT_WRITE",
        "BLOCK_SUSPEND",
        "CHOWN",
        "DAC_OVERRIDE",
        "DAC_READ_SEARCH",
        "FOWNER",
        "FSETID",
        "IPC_LOCK",
        "IPC_OWNER",
        "KILL",
        "LEASE",
        "LINUX_IMMUTABLE",
        "MAC_ADMIN",
        "MAC_OVERRIDE",
        "MKNOD",
        "NET_ADMIN",
        "NET_BIND_SERVICE",
        "NET_BROADCAST",
        "NET_RAW",
        "SETFCAP",
        "SETGID",
        "SETPCAP",
        "SETUID",
        "SYS_ADMIN",
        "SYS_BOOT",
        "SYS_CHROOT",
        "SYS_MODULE",
        "SYS_NICE",
        "SYS_PACCT",
        "SYS_PTRACE",
        "SYS_RAWIO",
        "SYS_RESOURCE",
        "SYS_TIME",
        "SYS_TTY_CONFIG",
        "SYSLOG",
        "WAKE_ALARM",
    ];
    let ghost all = known@.map_values(|s: &str| s@);
    assert(all =~= known_capabilities());
    let mut i: usize = 0;
    while i < 38
        invariant
            i <= 38,
            known@.len() == 38,
            all == known@.map_values(|s: &str| s@),
            all == known_capabilities(),
            forall|j: int| 0 <= j < i ==> all[j] != name@,
        decreases 38 - i,
    {
        if same(known[i], name) {
            assert(all[i as int] == name@);
            return true;
        }
        i = i + 1;
    }
    assert(!all.contains(name@));
    false
}

/// The capabilities that a container can drop are those of Linux by their names, and all of
/// them together.
pub proof fn lemma_capabilities(name: Seq<char>)
    ensures
        known_capabilities().contains(name) <==> ({
            ||| name == "ALL"@
            ||| name == "AUDIT_CONTROL"@
            ||| name == "AUDIT_WRITE"@
            ||| name == "BLOCK_SUSPEND"@
            ||| name == "CHOWN"@
            ||| name == "DAC_OVERRIDE"@
            ||| name == "DAC_READ_SEARCH"@
            ||| name == "FOWNER"@
            ||| name == "FSETID"@
            ||| name == "IPC_LOCK"@
            ||| name == "IPC_OWNER"@
            ||| name == "KILL"@
            ||| name == "LEASE"@
            ||| name == "LINUX_IMMUTABLE"@
            ||| name == "MAC_ADMIN"@
            ||| name == "MAC_OVERRIDE"@
            ||| name == "MKNOD"@
            ||| name == "NET_ADMIN"@
            ||| name == "NET_BIND_SERVICE"@
            ||| name == "NET_BROADCAST"@
            ||| name == "NET_RAW"@
            ||| name == "SETFCAP"@
            ||| name == "SETGID"@
            ||| name == "SETPCAP"@
            ||| name == "SETUID"@
            ||| name == "SYS_ADMIN"@
            ||| name == "SYS_BOOT"@
            ||| name == "SYS_CHROOT"@
            ||| name == "SYS_MODULE"@
            ||| name == "SYS_NICE"@
            ||| name == "SYS_PACCT"@
            ||| name == "SYS_PTRACE"@
            ||| name == "SYS_RAWIO"@
            ||| name == "SYS_RESOURCE"@
            ||| name == "SYS_TIME"@
            ||| name == "SYS_TTY_CONFIG"@
            ||| name == "SYSLOG"@
            ||| name == "WAKE_ALARM"@
        }),
{
    let list = known_capabilities();
    assert(list.len() == 38);
    assert(list[0] == "ALL"@);
    assert(list[1] == "AUDIT_CONTROL"@);
    assert(list[2] == "AUDIT_WRITE"@);
    assert(list[3] == "BLOCK_SUSPEND"@);
    assert(list[4] == "CHOWN"@);
    assert(list[5] == "DAC_OVERRIDE"@);
    assert(list[6] == "DAC_READ_SEARCH"@);
    assert(list[7] == "FOWNER"@);
    assert(list[8] == "FSETID"@);
    assert(list[9] == "IPC_LOCK"@);
    assert(list[10] == "IPC_OWNER"@);
    assert(list[11] == "KILL"@);
    assert(list[12] == "LEASE"@);
    assert(list[13] == "LINUX_IMMUTABLE"@);
    assert(list[14] == "MAC_ADMIN"@);
    assert(list[15] == "MAC_OVERRIDE"@);
    assert(list[16] == "MKNOD"@);
    assert(list[17] == "NET_ADMIN"@);
    assert(list[18] == "NET_BIND_SERVICE"@);
    assert(list[19] == "NET_BROADCAST"@);
    assert(list[20] == "NET_RAW"@);
    assert(list[21] == "SETFCAP"@);
    assert(list[22] == "SETGID"@);
    assert(list[23] == "SETPCAP"@);
    assert(list[24] == "SETUID"@);
    assert(list[25] == "SYS_ADMIN"@);
    assert(list[26] == "SYS_BOOT"@);
    assert(list[27] == "SYS_CHROOT"@);
    assert(list[28] == "SYS_MODULE"@);
    assert(list[29] == "SYS_NICE"@);
    assert(list[30] == "SYS_PACCT"@);
    assert(list[31] == "SYS_PTRACE"@);
    assert(list[32] == "SYS_RAWIO"@);
    assert(list[33] == "SYS_RESOURCE"@);
    assert(list[34] == "SYS_TIME"@);
    assert(list[35] == "SYS_TTY_CONFIG"@);
    assert(list[36] == "SYSLOG"@);
    assert(list[37] == "WAKE_ALARM"@);
}

/// The words for the conditions are those of ECS.
pub proof fn lemma_words_of_conditions(c: DependsOnCondition)
    ensures
        c is Start ==> c.word() == "START"@,
        c is Complete ==> c.word() == "COMPLETE"@,
        c is Success ==> c.word() == "SUCCESS"@,
        c is Healthy ==> c.word() == "HEALTHY"@,
{
}

/// A mount that names only its volume can be written to; the long form says whether.
pub proof fn lemma_forms_of_mounts(name: String, read_only: bool)
    ensures
        MountPointSpec::Volume(name).volume() == name@,
        !MountPointSpec::Volume(name).is_read_only(),
        (MountPointSpec::Detailed { source_volume: name, read_only }).volume() == name@,
        (MountPointSpec::Detailed { source_volume: name, read_only }).is_read_only() == read_only,
{
}

} // verus!
