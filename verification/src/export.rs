//! A service specification for a service that is running.

use crate::apply::{
    is_known_capability, ContainerSpec, ContainerSpecView, DependsOn, DependsOnCondition,
    EfsSpecView, EfsVolumeSpec, LinuxParameters, Metadata, MountPointSpec, MountSpecView,
    ServiceSpec, ServiceSpecView, Spec, SpecView, VolumeSpec, VolumeSpecView,
};
use crate::container;
use crate::ecs::{
    ConditionView, ContainerCondition, ContainerDefinition, ContainerDependency, ContainerView,
    EfsView, EfsVolumeConfiguration, KeyValuePair, LogView, MountPoint, MountPointView, Secret,
    ServiceDescription, ServiceView, TaskDefinition, TaskDefinitionView, Volume, VolumeView,
};
use crate::error::Error;
use crate::strmap::StrMap;
use crate::text;
use crate::textmap;
use vstd::prelude::*;

verus! {

/// What can keep a service from being exported.
#[derive(Debug, Clone, Copy, PartialEq, Eq, Structural)]
pub enum ExportProblem {
    ServiceNotFound,
    NoTaskDefinition,
    UnnamedVolume,
    DockerVolume,
    FsxVolume,
    HostVolume,
    ConfiguredAtLaunch,
    EncryptionPort,
    EfsSetting,
    NoAppContainer,
    AddsCapabilities,
    UnknownCapability,
}

/// A problem and the message that explains it.
pub type Problem = (ExportProblem, Seq<char>);

/// Whether a list is present and holds something.
pub open spec fn nonempty(list: Option<Seq<Seq<char>>>) -> bool {
    list matches Some(l) && l.len() > 0
}

/// Whether a container has a setting that only the entries of a list of
/// containers can express.
pub open spec fn uses_new_fields(cd: ContainerView) -> bool {
    ||| cd.user is Some
    ||| cd.readonly_root_filesystem == Some(true)
    ||| nonempty(cd.entry_point)
    ||| cd.depends_on.len() > 0
    ||| cd.linux_parameters is Some
    ||| cd.mount_points.len() > 0
}

/// Whether a container has a setting that only the entries of a list of
/// containers can express.
pub fn container_uses_new_fields(cd: &ContainerDefinition) -> (r: bool)
    ensures
        r == uses_new_fields(cd@),
{
    cd.user.is_some() || (match cd.readonly_root_filesystem {
        Some(b) => b,
        None => false,
    }) || (match &cd.entry_point {
        Some(list) => list.len() > 0,
        None => false,
    }) || cd.depends_on.len() > 0 || cd.linux_parameters.is_some() || cd.mount_points.len() > 0
}

/// The name of a container.
pub open spec fn exported_name(cd: ContainerView) -> Seq<char> {
    match cd.name {
        Some(name) => name,
        None => "app"@,
    }
}

/// The environment variables that have both a name and a value; of two with the
/// same name the later one counts.
pub open spec fn exported_env(list: Seq<(Option<Seq<char>>, Option<Seq<char>>)>) -> Map<
    Seq<char>,
    Seq<char>,
>
    decreases list.len(),
{
    if list.len() == 0 {
        Map::empty()
    } else {
        let before = exported_env(list.drop_last());
        match list.last() {
            (Some(k), Some(v)) => before.insert(k, v),
            _ => before,
        }
    }
}

/// The log group of a container that writes to one.
pub open spec fn exported_log_group(lc: Option<LogView>) -> Option<Seq<char>> {
    match lc {
        Some(lc) => match lc.options {
            Some(options) => if options.contains_key("awslogs-group"@) {
                Some(options["awslogs-group"@])
            } else {
                None
            },
            None => None,
        },
        None => None,
    }
}

/// The first port of a container; 0 where it has none.
pub open spec fn exported_port(list: Seq<(Option<i32>, Option<Seq<char>>)>) -> u16 {
    if list.len() == 0 {
        0
    } else {
        match list[0].0 {
            Some(port) => port as u16,
            None => 0,
        }
    }
}

/// A list, where it holds something.
pub open spec fn exported_list(list: Option<Seq<Seq<char>>>) -> Option<Seq<Seq<char>>> {
    if nonempty(list) {
        list
    } else {
        None
    }
}

/// The condition of a specification for a condition of ECS, where there is one
/// that can be applied again.
pub open spec fn exported_condition(c: ConditionView) -> Option<DependsOnCondition> {
    match c {
        ConditionView::Start => Some(DependsOnCondition::Start),
        ConditionView::Success => Some(DependsOnCondition::Success),
        ConditionView::Complete => Some(DependsOnCondition::Complete),
        _ => None,
    }
}

/// The dependencies that can be expressed.
pub open spec fn exported_dependencies(list: Seq<(Seq<char>, ConditionView)>) -> Seq<
    (Seq<char>, DependsOnCondition),
>
    decreases list.len(),
{
    if list.len() == 0 {
        Seq::empty()
    } else {
        let before = exported_dependencies(list.drop_last());
        match exported_condition(list.last().1) {
            Some(c) => before.push((list.last().0, c)),
            None => before,
        }
    }
}

/// What is said of a dependency that cannot be expressed.
pub open spec fn dropped_message(name: Seq<char>, dep: (Seq<char>, ConditionView)) -> Seq<char> {
    "  \u{26a0}\u{fe0f}  dropping dependsOn "@ + name + " -> "@ + dep.0 + " (condition "@
        + dep.1.word()
        + "): not representable in this spec, so the exported YAML does not preserve that startup ordering"@
}

/// What is said of the dependencies that cannot be expressed.
pub open spec fn dropped_messages(name: Seq<char>, list: Seq<(Seq<char>, ConditionView)>) -> Seq<
    Seq<char>,
>
    decreases list.len(),
{
    if list.len() == 0 {
        Seq::empty()
    } else {
        let before = dropped_messages(name, list.drop_last());
        if exported_condition(list.last().1) is Some {
            before
        } else {
            before.push(dropped_message(name, list.last()))
        }
    }
}

/// The first capability, from place `i` on, that ECS is not known to accept.
pub open spec fn first_unknown(list: Seq<Seq<char>>, i: int) -> int
    decreases list.len() - i,
{
    if i < 0 || i >= list.len() {
        list.len() as int
    } else if !crate::apply::known_capabilities().contains(list[i]) {
        i
    } else {
        first_unknown(list, i + 1)
    }
}

/// The capabilities that a container drops, unless they cannot be expressed.
pub open spec fn exported_capabilities(cd: ContainerView) -> Result<
    Option<Seq<Seq<char>>>,
    Problem,
> {
    match cd.linux_parameters {
        Some(Some((added, dropped))) => {
            let i = first_unknown(dropped, 0);
            if added.len() > 0 {
                Err(
                    (
                        ExportProblem::AddsCapabilities,
                        "container '"@ + exported_name(cd) + "' adds Linux capabilities ("@
                            + text::join(added, ", "@)
                            + "), which this spec cannot represent. Export refused rather than silently dropping them"@,
                    ),
                )
            } else if i < dropped.len() {
                Err(
                    (
                        ExportProblem::UnknownCapability,
                        "container '"@ + exported_name(cd) + "' drops Linux capability '"@
                            + dropped[i]
                            + "', which this spec's validation does not recognise. Export refused rather than emitting a spec that cannot be reapplied"@,
                    ),
                )
            } else {
                Ok(Some(dropped))
            }
        },
        _ => Ok(None),
    }
}

/// The mounts that name both a path and a volume; of two at the same path the
/// later one counts.
pub open spec fn exported_mounts(list: Seq<MountPointView>) -> Map<Seq<char>, MountSpecView>
    decreases list.len(),
{
    if list.len() == 0 {
        Map::empty()
    } else {
        let before = exported_mounts(list.drop_last());
        match (list.last().container_path, list.last().source_volume) {
            (Some(path), Some(volume)) => before.insert(
                path,
                if list.last().read_only == Some(true) {
                    MountSpecView::Detailed { source_volume: volume, read_only: true }
                } else {
                    MountSpecView::Volume(volume)
                },
            ),
            _ => before,
        }
    }
}

/// What exporting a container comes to.
pub open spec fn exported_container(cd: ContainerView) -> Result<ContainerSpecView, Problem> {
    match exported_capabilities(cd) {
        Err(e) => Err(e),
        Ok(capabilities_drop) => Ok(
            ContainerSpecView {
                name: exported_name(cd),
                image: match cd.image {
                    Some(image) => image,
                    None => "?"@,
                },
                essential: match cd.essential {
                    Some(b) => b,
                    None => true,
                },
                port: exported_port(cd.port_mappings),
                command: exported_list(cd.command),
                entry_point: exported_list(cd.entry_point),
                env: exported_env(cd.environment),
                secrets: textmap::collected(cd.secrets),
                log_group: exported_log_group(cd.log_configuration),
                user: cd.user,
                readonly_root_filesystem: cd.readonly_root_filesystem == Some(true),
                depends_on: exported_dependencies(cd.depends_on),
                capabilities_drop,
                mount_points: exported_mounts(cd.mount_points),
            },
        ),
    }
}

fn name_or_app(cd: &ContainerDefinition) -> (r: &str)
    ensures
        r@ == exported_name(cd@),
{
    match &cd.name {
        Some(name) => name.as_str(),
        None => "app",
    }
}

fn read_env(cd: &ContainerDefinition) -> (r: StrMap<String>)
    ensures
        textmap::text_map(r) == exported_env(cd@.environment),
{
    let list = &cd.environment;
    let ghost all = cd@.environment;
    let mut out: StrMap<String> = StrMap::new();
    let mut i: usize = 0;
    assert(textmap::text_map(out) =~= exported_env(all.take(0)));
    while i < list.len()
        invariant
            i <= list@.len(),
            all == list@.map_values(|kv: KeyValuePair| kv@),
            textmap::text_map(out) == exported_env(all.take(i as int)),
        decreases list@.len() - i,
    {
        let ghost before = textmap::text_map(out);
        let kv = &list[i];
        proof {
            assert(all.take(i + 1).drop_last() =~= all.take(i as int));
            assert(all.take(i + 1).last() == kv@);
        }
        match (&kv.name, &kv.value) {
            (Some(k), Some(v)) => {
                out.insert(k.clone(), v.clone());
                assert(textmap::text_map(out) =~= before.insert(k@, v@));
            },
            _ => {},
        }
        i = i + 1;
    }
    assert(all.take(all.len() as int) =~= all);
    out
}

fn read_secrets(cd: &ContainerDefinition) -> (r: StrMap<String>)
    ensures
        textmap::text_map(r) == textmap::collected(cd@.secrets),
{
    let list = &cd.secrets;
    let ghost all = cd@.secrets;
    let mut out: StrMap<String> = StrMap::new();
    let mut i: usize = 0;
    assert(textmap::text_map(out) =~= textmap::collected(all.take(0)));
    while i < list.len()
        invariant
            i <= list@.len(),
            all == list@.map_values(|s: Secret| s@),
            textmap::text_map(out) == textmap::collected(all.take(i as int)),
        decreases list@.len() - i,
    {
        let ghost before = textmap::text_map(out);
        let s = &list[i];
        out.insert(s.name.clone(), s.value_from.clone());
        proof {
            assert(all.take(i + 1).drop_last() =~= all.take(i as int));
            assert(all.take(i + 1).last() == s@);
            assert(textmap::text_map(out) =~= before.insert(s.name@, s.value_from@));
        }
        i = i + 1;
    }
    assert(all.take(all.len() as int) =~= all);
    out
}

fn read_log_group(cd: &ContainerDefinition) -> (r: Option<String>)
    ensures
        text::opt_text(r) == exported_log_group(cd@.log_configuration),
{
    match &cd.log_configuration {
        Some(lc) => match &lc.options {
            Some(options) => {
                match options.get("awslogs-group") {
                    Some(group) => Some(group.clone()),
                    None => None,
                }
            },
            None => None,
        },
        None => None,
    }
}

fn read_port(cd: &ContainerDefinition) -> (r: u16)
    ensures
        r == exported_port(cd@.port_mappings),
{
    if cd.port_mappings.len() == 0 {
        0
    } else {
        assert(cd@.port_mappings[0] == cd.port_mappings@[0]@);
        match cd.port_mappings[0].container_port {
            Some(port) => #[verifier::truncate]
            (port as u16),
            None => 0,
        }
    }
}

fn read_list(list: &Option<Vec<String>>) -> (r: Option<Vec<String>>)
    ensures
        crate::ecs::opt_texts(r) == exported_list(crate::ecs::opt_texts(*list)),
{
    match list {
        Some(l) => {
            if l.len() == 0 {
                None
            } else {
                Some(text::copy_all(l))
            }
        },
        None => None,
    }
}

fn read_condition(c: &ContainerCondition) -> (r: Option<DependsOnCondition>)
    ensures
        r == exported_condition(c@),
{
    match c {
        ContainerCondition::Start => Some(DependsOnCondition::Start),
        ContainerCondition::Success => Some(DependsOnCondition::Success),
        ContainerCondition::Complete => Some(DependsOnCondition::Complete),
        _ => None,
    }
}

fn read_dependencies(cd: &ContainerDefinition) -> (r: Vec<DependsOn>)
    ensures
        r@.map_values(|d: DependsOn| (d.container_name@, d.condition)) == exported_dependencies(
            cd@.depends_on,
        ),
{
    let list = &cd.depends_on;
    let ghost all = cd@.depends_on;
    let mut out: Vec<DependsOn> = Vec::new();
    let mut i: usize = 0;
    assert(out@.map_values(|d: DependsOn| (d.container_name@, d.condition))
        =~= exported_dependencies(all.take(0)));
    while i < list.len()
        invariant
            i <= list@.len(),
            all == list@.map_values(|d: ContainerDependency| d@),
            out@.map_values(|d: DependsOn| (d.container_name@, d.condition))
                == exported_dependencies(all.take(i as int)),
        decreases list@.len() - i,
    {
        let ghost before = out@.map_values(|d: DependsOn| (d.container_name@, d.condition));
        let d = &list[i];
        proof {
            assert(all.take(i + 1).drop_last() =~= all.take(i as int));
            assert(all.take(i + 1).last() == d@);
        }
        match read_condition(&d.condition) {
            Some(condition) => {
                out.push(DependsOn { container_name: d.container_name.clone(), condition });
                assert(out@.map_values(|d: DependsOn| (d.container_name@, d.condition))
                    =~= before.push((d.container_name@, condition)));
            },
            None => {},
        }
        i = i + 1;
    }
    assert(all.take(all.len() as int) =~= all);
    out
}

/// Lists what is said of the dependencies of a container that an export leaves
/// out, one line each.
pub fn dropped_dependencies(cd: &ContainerDefinition) -> (r: Vec<String>)
    ensures
        text::texts(r@) == dropped_messages(exported_name(cd@), cd@.depends_on),
{
    let list = &cd.depends_on;
    let ghost all = cd@.depends_on;
    let name = name_or_app(cd);
    let mut out: Vec<String> = Vec::new();
    let mut i: usize = 0;
    assert(text::texts(out@) =~= dropped_messages(name@, all.take(0)));
    while i < list.len()
        invariant
            i <= list@.len(),
            all == list@.map_values(|d: ContainerDependency| d@),
            text::texts(out@) == dropped_messages(name@, all.take(i as int)),
        decreases list@.len() - i,
    {
        let ghost before = text::texts(out@);
        let d = &list[i];
        proof {
            assert(all.take(i + 1).drop_last() =~= all.take(i as int));
            assert(all.take(i + 1).last() == d@);
        }
        if read_condition(&d.condition).is_none() {
            let mut m = String::from_str("  \u{26a0}\u{fe0f}  dropping dependsOn ");
            m.append(name);
            m.append(" -> ");
            m.append(d.container_name.as_str());
            m.append(" (condition ");
            m.append(d.condition.as_str());
            m.append(
                "): not representable in this spec, so the exported YAML does not preserve that startup ordering",
            );
            out.push(m);
            assert(text::texts(out@) =~= before.push(dropped_message(name@, d@)));
        }
        i = i + 1;
    }
    assert(all.take(all.len() as int) =~= all);
    out
}

fn read_capabilities(cd: &ContainerDefinition) -> (r: Result<
    Option<LinuxParameters>,
    Error<ExportProblem>,
>)
    ensures
        match r {
            Ok(lp) => exported_capabilities(cd@) == Ok::<Option<Seq<Seq<char>>>, Problem>(
                match lp {
                    Some(lp) => Some(text::texts(lp.capabilities_drop@)),
                    None => None,
                },
            ),
            Err(e) => exported_capabilities(cd@) == Err::<Option<Seq<Seq<char>>>, Problem>(e@),
        },
{
    let caps = match &cd.linux_parameters {
        Some(lp) => match &lp.capabilities {
            Some(caps) => caps,
            None => {
                return Ok(None);
            },
        },
        None => {
            return Ok(None);
        },
    };
    let name = name_or_app(cd);
    let ghost dropped = text::texts(caps.dropped@);
    if caps.added.len() > 0 {
        let mut m = String::from_str("container '");
        m.append(name);
        m.append("' adds Linux capabilities (");
        m.append(text::join_all(&caps.added, ", ").as_str());
        m.append(
            "), which this spec cannot represent. Export refused rather than silently dropping them",
        );
        return Err(Error { kind: ExportProblem::AddsCapabilities, message: m });
    }
    let mut i: usize = 0;
    while i < caps.dropped.len()
        invariant
            i <= caps.dropped@.len(),
            dropped == text::texts(caps.dropped@),
            first_unknown(dropped, 0) == first_unknown(dropped, i as int),
            cd@.linux_parameters == Some(Some((text::texts(caps.added@), dropped))),
            caps.added@.len() == 0,
            name@ == exported_name(cd@),
        decreases caps.dropped@.len() - i,
    {
        let cap = caps.dropped[i].as_str();
        assert(dropped[i as int] == cap@);
        if !is_known_capability(cap) {
            let mut m = String::from_str("container '");
            m.append(name);
            m.append("' drops Linux capability '");
            m.append(cap);
            m.append(
                "', which this spec's validation does not recognise. Export refused rather than emitting a spec that cannot be reapplied",
            );
            return Err(Error { kind: ExportProblem::UnknownCapability, message: m });
        }
        i = i + 1;
    }
    Ok(Some(LinuxParameters { capabilities_drop: text::copy_all(&caps.dropped) }))
}

fn read_mounts(cd: &ContainerDefinition) -> (r: StrMap<MountPointSpec>)
    ensures
        r@.map_values(|m: MountPointSpec| m@) == exported_mounts(cd@.mount_points),
{
    let list = &cd.mount_points;
    let ghost all = cd@.mount_points;
    let mut out: StrMap<MountPointSpec> = StrMap::new();
    let mut i: usize = 0;
    assert(out@.map_values(|m: MountPointSpec| m@) =~= exported_mounts(all.take(0)));
    while i < list.len()
        invariant
            i <= list@.len(),
            all == list@.map_values(|m: MountPoint| m@),
            out@.map_values(|m: MountPointSpec| m@) == exported_mounts(all.take(i as int)),
        decreases list@.len() - i,
    {
        let ghost before = out@.map_values(|m: MountPointSpec| m@);
        let mp = &list[i];
        proof {
            assert(all.take(i + 1).drop_last() =~= all.take(i as int));
            assert(all.take(i + 1).last() == mp@);
        }
        match (&mp.container_path, &mp.source_volume) {
            (Some(path), Some(volume)) => {
                let read_only = match mp.read_only {
                    Some(b) => b,
                    None => false,
                };
                let mount = if read_only {
                    MountPointSpec::Detailed { source_volume: volume.clone(), read_only: true }
                } else {
                    MountPointSpec::Volume(volume.clone())
                };
                let ghost seen = mount@;
                out.insert(path.clone(), mount);
                assert(out@.map_values(|m: MountPointSpec| m@) =~= before.insert(path@, seen));
            },
            _ => {},
        }
        i = i + 1;
    }
    assert(all.take(all.len() as int) =~= all);
    out
}

/// Describes a container in a specification. What a specification cannot
/// express is refused, except for a condition to wait for, which is left out
/// (see [`dropped_dependencies`]).
pub fn container_to_spec(cd: &ContainerDefinition) -> (r: Result<
    ContainerSpec,
    Error<ExportProblem>,
>)
    ensures
        match r {
            Ok(cs) => exported_container(cd@) == Ok::<ContainerSpecView, Problem>(cs@),
            Err(e) => exported_container(cd@) == Err::<ContainerSpecView, Problem>(e@),
        },
{
    let linux_parameters = match read_capabilities(cd) {
        Ok(lp) => lp,
        Err(e) => {
            return Err(e);
        },
    };
    let cs = ContainerSpec {
        name: String::from_str(name_or_app(cd)),
        image: match &cd.image {
            Some(image) => image.clone(),
            None => String::from_str("?"),
        },
        essential: match cd.essential {
            Some(b) => b,
            None => true,
        },
        port: read_port(cd),
        command: read_list(&cd.command),
        entry_point: read_list(&cd.entry_point),
        env: read_env(cd),
        secrets: read_secrets(cd),
        log_group: read_log_group(cd),
        user: text::copy_opt(&cd.user),
        readonly_root_filesystem: match cd.readonly_root_filesystem {
            Some(b) => b,
            None => false,
        },
        depends_on: read_dependencies(cd),
        linux_parameters,
        mount_points: read_mounts(cd),
    };
    Ok(cs)
}

/// A setting of a file system that is either on or off.
pub open spec fn exported_toggle(volume: Seq<char>, setting: Option<Seq<char>>) -> Result<
    Option<Seq<char>>,
    Problem,
> {
    match setting {
        Some(word) => if word == "ENABLED"@ || word == "DISABLED"@ {
            Ok(Some(word))
        } else {
            Err(
                (
                    ExportProblem::EfsSetting,
                    "volume '"@ + volume + "' has an EFS setting this spec does not model: '"@
                        + word + "'"@,
                ),
            )
        },
        None => Ok(None),
    }
}

/// What exporting a file system comes to.
pub open spec fn exported_efs(volume: Seq<char>, efs: EfsView) -> Result<EfsSpecView, Problem> {
    let access_point_id = match efs.authorization_config {
        Some(auth) => auth.0,
        None => None,
    };
    let iam = match efs.authorization_config {
        Some(auth) => auth.1,
        None => None,
    };
    if efs.transit_encryption_port is Some {
        Err(
            (
                ExportProblem::EncryptionPort,
                "volume '"@ + volume
                    + "' sets an EFS transitEncryptionPort, which this spec cannot represent. Export refused rather than silently reverting it to the default port"@,
            ),
        )
    } else {
        match exported_toggle(volume, efs.transit_encryption) {
            Err(e) => Err(e),
            Ok(transit_encryption) => match exported_toggle(volume, iam) {
                Err(e) => Err(e),
                Ok(iam) => Ok(
                    EfsSpecView {
                        file_system_id: efs.file_system_id,
                        root_directory: efs.root_directory,
                        transit_encryption,
                        access_point_id,
                        iam,
                    },
                ),
            },
        }
    }
}

/// What exporting a volume comes to.
pub open spec fn exported_volume(v: VolumeView) -> Result<VolumeSpecView, Problem> {
    match v.name {
        None => Err(
            (ExportProblem::UnnamedVolume, "task definition contains a volume with no name"@),
        ),
        Some(name) => if v.has_docker_configuration {
            Err(
                (
                    ExportProblem::DockerVolume,
                    "volume '"@ + name
                        + "' uses dockerVolumeConfiguration, which this spec cannot represent (and which is EC2-only, not Fargate). Export refused rather than silently converting it to empty scratch storage"@,
                ),
            )
        } else if v.has_fsx_configuration {
            Err(
                (
                    ExportProblem::FsxVolume,
                    "volume '"@ + name
                        + "' uses an FSx for Windows File Server configuration, which this spec cannot represent. Export refused rather than silently converting it to empty scratch storage"@,
                ),
            )
        } else if v.host_source_path is Some {
            Err(
                (
                    ExportProblem::HostVolume,
                    "volume '"@ + name
                        + "' is a bind mount with a host sourcePath, which this spec cannot represent (and which is EC2-only, not Fargate). Export refused rather than silently converting it to empty scratch storage"@,
                ),
            )
        } else if v.configured_at_launch == Some(true) {
            Err(
                (
                    ExportProblem::ConfiguredAtLaunch,
                    "volume '"@ + name
                        + "' is configuredAtLaunch (an EBS volume attached at deployment time), which this spec cannot represent: reapplying it would register the task definition without the volumeConfigurations needed to actually attach the volume. Export refused rather than producing a spec that deploys without the volume"@,
                ),
            )
        } else {
            match v.efs_volume_configuration {
                None => Ok(VolumeSpecView { name, efs: None, configured_at_launch: false }),
                Some(efs) => match exported_efs(name, efs) {
                    Err(e) => Err(e),
                    Ok(efs) => Ok(
                        VolumeSpecView { name, efs: Some(efs), configured_at_launch: false },
                    ),
                },
            }
        },
    }
}

/// What exporting the first `n` volumes of a list comes to.
pub open spec fn exported_volumes(list: Seq<VolumeView>, n: int) -> Result<
    Seq<VolumeSpecView>,
    Problem,
>
    decreases n,
{
    if n <= 0 {
        Ok(Seq::empty())
    } else {
        match exported_volumes(list, n - 1) {
            Ok(before) => match exported_volume(list[n - 1]) {
                Ok(v) => Ok(before.push(v)),
                Err(e) => Err(e),
            },
            Err(e) => Err(e),
        }
    }
}

/// What exporting the first `n` containers of a list comes to.
pub open spec fn exported_containers(list: Seq<ContainerView>, n: int) -> Result<
    Seq<ContainerSpecView>,
    Problem,
>
    decreases n,
{
    if n <= 0 {
        Ok(Seq::empty())
    } else {
        match exported_containers(list, n - 1) {
            Ok(before) => match exported_container(list[n - 1]) {
                Ok(c) => Ok(before.push(c)),
                Err(e) => Err(e),
            },
            Err(e) => Err(e),
        }
    }
}

/// The containers of the service itself.
pub open spec fn app_containers(list: Seq<ContainerView>) -> Seq<ContainerView>
    decreases list.len(),
{
    if list.len() == 0 {
        Seq::empty()
    } else if container::is_service_connect(list.last()) {
        app_containers(list.drop_last())
    } else {
        app_containers(list.drop_last()).push(list.last())
    }
}

/// The part of a specification that describes the containers.
#[verifier::ext_equal]
pub struct ContainerPart {
    pub image: Seq<char>,
    pub container_name: Option<Seq<char>>,
    pub port: u16,
    pub command: Option<Seq<Seq<char>>>,
    pub env: Map<Seq<char>, Seq<char>>,
    pub secrets: Map<Seq<char>, Seq<char>>,
    pub log_group: Option<Seq<char>>,
    pub containers: Option<Seq<ContainerSpecView>>,
}

/// The part of a specification that lists the containers.
pub open spec fn listed(containers: Seq<ContainerSpecView>) -> ContainerPart {
    ContainerPart {
        image: ""@,
        container_name: None,
        port: 0,
        command: None,
        env: Map::empty(),
        secrets: Map::empty(),
        log_group: None,
        containers: Some(containers),
    }
}

/// The part of a specification that describes its one container directly.
pub open spec fn flat(cd: ContainerView) -> ContainerPart {
    ContainerPart {
        image: match cd.image {
            Some(image) => image,
            None => "?"@,
        },
        container_name: Some(exported_name(cd)),
        port: exported_port(cd.port_mappings),
        command: exported_list(cd.command),
        env: exported_env(cd.environment),
        secrets: textmap::collected(cd.secrets),
        log_group: exported_log_group(cd.log_configuration),
        containers: None,
    }
}

/// How the containers of a service are exported: directly if there is one that
/// needs no more than that, as a list otherwise.
pub open spec fn exported_part(apps: Seq<ContainerView>) -> Result<ContainerPart, Problem> {
    if apps.len() == 0 {
        Err((ExportProblem::NoAppContainer, "no app container"@))
    } else if apps.len() > 1 || uses_new_fields(apps[0]) {
        match exported_containers(apps, apps.len() as int) {
            Ok(containers) => Ok(listed(containers)),
            Err(e) => Err(e),
        }
    } else {
        Ok(flat(apps[0]))
    }
}

/// The specification of a service, out of its parts.
pub open spec fn exported_service(
    cluster: Seq<char>,
    service: Seq<char>,
    svc: ServiceView,
    td: TaskDefinitionView,
    volumes: Seq<VolumeSpecView>,
    part: ContainerPart,
) -> ServiceSpecView {
    ServiceSpecView {
        api_version: Some("ecsctl/v1"@),
        kind: Some("Service"@),
        name: service,
        cluster,
        spec: SpecView {
            image: part.image,
            cpu: match td.cpu {
                Some(cpu) => cpu,
                None => "256"@,
            },
            memory: match td.memory {
                Some(memory) => memory,
                None => "512"@,
            },
            arch: match td.cpu_architecture {
                Some(arch) => arch,
                None => "X86_64"@,
            },
            capacity: if svc.capacity_providers.len() > 0 {
                svc.capacity_providers[0]
            } else {
                "FARGATE"@
            },
            desired_count: svc.desired_count,
            exec_enabled: svc.enable_execute_command,
            env: part.env,
            secrets: part.secrets,
            log_group: part.log_group,
            execution_role_arn: td.execution_role_arn,
            task_role_arn: td.task_role_arn,
            subnets: Some(
                match svc.network {
                    Some(n) => n.subnets,
                    None => Seq::empty(),
                },
            ),
            security_groups: Some(
                match svc.network {
                    Some(n) => n.security_groups,
                    None => Seq::empty(),
                },
            ),
            assign_public_ip: svc.network matches Some(n) && n.assign_public_ip == Some(
                "ENABLED"@,
            ),
            container_name: part.container_name,
            port: part.port,
            command: part.command,
            containers: part.containers,
            volumes,
        },
    }
}

/// What exporting a service comes to.
pub open spec fn export_result(
    cluster: Seq<char>,
    service: Seq<char>,
    svc: ServiceView,
    td: TaskDefinitionView,
) -> Result<ServiceSpecView, Problem> {
    match exported_volumes(td.volumes, td.volumes.len() as int) {
        Err(e) => Err(e),
        Ok(volumes) => match exported_part(app_containers(td.container_definitions)) {
            Err(e) => Err(e),
            Ok(part) => Ok(exported_service(cluster, service, svc, td, volumes, part)),
        },
    }
}

fn refusal(kind: ExportProblem, name: &str, rest: &str) -> (r: Error<ExportProblem>)
    ensures
        r@ == (kind, "volume '"@ + name@ + rest@),
{
    let mut m = String::from_str("volume '");
    m.append(name);
    m.append(rest);
    Error { kind, message: m }
}

fn read_toggle(volume: &str, setting: &Option<String>) -> (r: Result<
    Option<String>,
    Error<ExportProblem>,
>)
    ensures
        match r {
            Ok(s) => exported_toggle(volume@, text::opt_text(*setting)) == Ok::<
                Option<Seq<char>>,
                Problem,
            >(text::opt_text(s)),
            Err(e) => exported_toggle(volume@, text::opt_text(*setting)) == Err::<
                Option<Seq<char>>,
                Problem,
            >(e@),
        },
{
    match setting {
        Some(word) => {
            if text::same(word.as_str(), "ENABLED") || text::same(word.as_str(), "DISABLED") {
                Ok(Some(word.clone()))
            } else {
                let mut m = String::from_str("volume '");
                m.append(volume);
                m.append("' has an EFS setting this spec does not model: '");
                m.append(word.as_str());
                m.append("'");
                Err(Error { kind: ExportProblem::EfsSetting, message: m })
            }
        },
        None => Ok(None),
    }
}

fn read_efs(volume: &str, efs: &EfsVolumeConfiguration) -> (r: Result<
    EfsVolumeSpec,
    Error<ExportProblem>,
>)
    ensures
        match r {
            Ok(s) => exported_efs(volume@, efs@) == Ok::<EfsSpecView, Problem>(s@),
            Err(e) => exported_efs(volume@, efs@) == Err::<EfsSpecView, Problem>(e@),
        },
{
    if efs.transit_encryption_port.is_some() {
        return Err(
            refusal(
                ExportProblem::EncryptionPort,
                volume,
                "' sets an EFS transitEncryptionPort, which this spec cannot represent. Export refused rather than silently reverting it to the default port",
            ),
        );
    }
    let transit_encryption = match read_toggle(volume, &efs.transit_encryption) {
        Ok(s) => s,
        Err(e) => {
            return Err(e);
        },
    };
    let (access_point_id, iam) = match &efs.authorization_config {
        Some(auth) => {
            let iam = match read_toggle(volume, &auth.iam) {
                Ok(s) => s,
                Err(e) => {
                    return Err(e);
                },
            };
            (text::copy_opt(&auth.access_point_id), iam)
        },
        None => (None, None),
    };
    Ok(
        EfsVolumeSpec {
            file_system_id: efs.file_system_id.clone(),
            root_directory: text::copy_opt(&efs.root_directory),
            transit_encryption,
            access_point_id,
            iam,
        },
    )
}

/// Describes a volume in a specification. What a specification cannot express
/// is refused.
pub fn volume_to_spec(v: &Volume) -> (r: Result<VolumeSpec, Error<ExportProblem>>)
    ensures
        match r {
            Ok(s) => exported_volume(v@) == Ok::<VolumeSpecView, Problem>(s@),
            Err(e) => exported_volume(v@) == Err::<VolumeSpecView, Problem>(e@),
        },
{
    let name = match &v.name {
        Some(name) => name,
        None => {
            return Err(
                Error {
                    kind: ExportProblem::UnnamedVolume,
                    message: String::from_str("task definition contains a volume with no name"),
                },
            );
        },
    };
    if v.has_docker_configuration {
        return Err(
            refusal(
                ExportProblem::DockerVolume,
                name.as_str(),
                "' uses dockerVolumeConfiguration, which this spec cannot represent (and which is EC2-only, not Fargate). Export refused rather than silently converting it to empty scratch storage",
            ),
        );
    }
    if v.has_fsx_configuration {
        return Err(
            refusal(
                ExportProblem::FsxVolume,
                name.as_str(),
                "' uses an FSx for Windows File Server configuration, which this spec cannot represent. Export refused rather than silently converting it to empty scratch storage",
            ),
        );
    }
    if v.host_source_path.is_some() {
        return Err(
            refusal(
                ExportProblem::HostVolume,
                name.as_str(),
                "' is a bind mount with a host sourcePath, which this spec cannot represent (and which is EC2-only, not Fargate). Export refused rather than silently converting it to empty scratch storage",
            ),
        );
    }
    match v.configured_at_launch {
        Some(true) => {
            return Err(
                refusal(
                    ExportProblem::ConfiguredAtLaunch,
                    name.as_str(),
                    "' is configuredAtLaunch (an EBS volume attached at deployment time), which this spec cannot represent: reapplying it would register the task definition without the volumeConfigurations needed to actually attach the volume. Export refused rather than producing a spec that deploys without the volume",
                ),
            );
        },
        _ => {},
    }
    let efs = match &v.efs_volume_configuration {
        Some(efs) => match read_efs(name.as_str(), efs) {
            Ok(efs) => Some(efs),
            Err(e) => {
                return Err(e);
            },
        },
        None => None,
    };
    Ok(VolumeSpec { name: name.clone(), efs, configured_at_launch: false })
}

proof fn lemma_volumes_err(list: Seq<VolumeView>, n: int, m: int)
    requires
        0 <= n <= m,
        exported_volumes(list, n) is Err,
    ensures
        exported_volumes(list, m) == exported_volumes(list, n),
    decreases m - n,
{
    if n < m {
        lemma_volumes_err(list, n + 1, m);
    }
}

proof fn lemma_containers_err(list: Seq<ContainerView>, n: int, m: int)
    requires
        0 <= n <= m,
        exported_containers(list, n) is Err,
    ensures
        exported_containers(list, m) == exported_containers(list, n),
    decreases m - n,
{
    if n < m {
        lemma_containers_err(list, n + 1, m);
    }
}

fn read_volumes(td: &TaskDefinition) -> (r: Result<Vec<VolumeSpec>, Error<ExportProblem>>)
    ensures
        match r {
            Ok(list) => exported_volumes(td@.volumes, td@.volumes.len() as int) == Ok::<
                Seq<VolumeSpecView>,
                Problem,
            >(list@.map_values(|v: VolumeSpec| v@)),
            Err(e) => exported_volumes(td@.volumes, td@.volumes.len() as int) == Err::<
                Seq<VolumeSpecView>,
                Problem,
            >(e@),
        },
{
    let list = &td.volumes;
    let ghost all = td@.volumes;
    let mut out: Vec<VolumeSpec> = Vec::new();
    let mut i: usize = 0;
    assert(out@.map_values(|v: VolumeSpec| v@) =~= Seq::empty());
    while i < list.len()
        invariant
            i <= list@.len(),
            all == list@.map_values(|v: Volume| v@),
            all == td@.volumes,
            exported_volumes(all, i as int) == Ok::<Seq<VolumeSpecView>, Problem>(
                out@.map_values(|v: VolumeSpec| v@),
            ),
        decreases list@.len() - i,
    {
        let ghost before = out@.map_values(|v: VolumeSpec| v@);
        assert(all[i as int] == list@[i as int]@);
        match volume_to_spec(&list[i]) {
            Ok(v) => {
                out.push(v);
                assert(out@.map_values(|v: VolumeSpec| v@) =~= before.push(v@));
            },
            Err(e) => {
                proof {
                    lemma_volumes_err(all, i + 1, all.len() as int);
                }
                return Err(e);
            },
        }
        i = i + 1;
    }
    Ok(out)
}

/// The places of the containers of the service itself.
fn app_places(td: &TaskDefinition) -> (r: Vec<usize>)
    ensures
        forall|i: int| 0 <= i < r@.len() ==> #[trigger] r@[i] < td.container_definitions@.len(),
        r@.map_values(|i: usize| td@.container_definitions[i as int]) == app_containers(
            td@.container_definitions,
        ),
{
    let list = &td.container_definitions;
    let ghost all = td@.container_definitions;
    let mut out: Vec<usize> = Vec::new();
    let mut i: usize = 0;
    assert(out@.map_values(|i: usize| all[i as int]) =~= app_containers(all.take(0)));
    while i < list.len()
        invariant
            i <= list@.len(),
            all == list@.map_values(|c: ContainerDefinition| c@),
            forall|j: int| 0 <= j < out@.len() ==> #[trigger] out@[j] < i,
            out@.map_values(|i: usize| all[i as int]) == app_containers(all.take(i as int)),
        decreases list@.len() - i,
    {
        let ghost before = out@.map_values(|i: usize| all[i as int]);
        let sidecar = match &list[i].name {
            Some(name) => text::starts_with(name.as_str(), "ecs-service-connect-"),
            None => false,
        };
        proof {
            assert(all.take(i + 1).drop_last() =~= all.take(i as int));
            assert(all.take(i + 1).last() == list@[i as int]@);
        }
        if !sidecar {
            out.push(i);
            assert(out@.map_values(|i: usize| all[i as int]) =~= before.push(all[i as int]));
        }
        i = i + 1;
    }
    assert(all.take(all.len() as int) =~= all);
    out
}

/// The part of a specification that describes the containers, in memory.
struct Part {
    image: String,
    container_name: Option<String>,
    port: u16,
    command: Option<Vec<String>>,
    env: StrMap<String>,
    secrets: StrMap<String>,
    log_group: Option<String>,
    containers: Option<Vec<ContainerSpec>>,
}

impl View for Part {
    type V = ContainerPart;

    closed spec fn view(&self) -> ContainerPart {
        ContainerPart {
            image: self.image@,
            container_name: text::opt_text(self.container_name),
            port: self.port,
            command: crate::ecs::opt_texts(self.command),
            env: textmap::text_map(self.env),
            secrets: textmap::text_map(self.secrets),
            log_group: text::opt_text(self.log_group),
            containers: match self.containers {
                Some(list) => Some(list@.map_values(|c: ContainerSpec| c@)),
                None => None,
            },
        }
    }
}

fn read_part(td: &TaskDefinition) -> (r: Result<Part, Error<ExportProblem>>)
    ensures
        match r {
            Ok(part) => exported_part(app_containers(td@.container_definitions)) == Ok::<
                ContainerPart,
                Problem,
            >(part@),
            Err(e) => exported_part(app_containers(td@.container_definitions)) == Err::<
                ContainerPart,
                Problem,
            >(e@),
        },
{
    let places = app_places(td);
    let ghost apps = app_containers(td@.container_definitions);
    assert forall|i: int| 0 <= i < places@.len() implies #[trigger] apps[i]
        == td.container_definitions@[places@[i] as int]@ by {
        assert(apps[i] == places@.map_values(|i: usize| td@.container_definitions[i as int])[i]);
    }
    if places.len() == 0 {
        return Err(
            Error {
                kind: ExportProblem::NoAppContainer,
                message: String::from_str("no app container"),
            },
        );
    }
    let first = &td.container_definitions[places[0]];
    assert(apps[0] == first@);
    if places.len() > 1 || container_uses_new_fields(first) {
        let mut out: Vec<ContainerSpec> = Vec::new();
        let mut i: usize = 0;
        assert(out@.map_values(|c: ContainerSpec| c@) =~= Seq::empty());
        while i < places.len()
            invariant
                i <= places@.len(),
                places@.len() == apps.len(),
                apps == app_containers(td@.container_definitions),
                apps.len() > 1 || uses_new_fields(apps[0]),
                apps.len() > 0,
                forall|i: int|
                    0 <= i < places@.len() ==> #[trigger] places@[i]
                        < td.container_definitions@.len(),
                forall|i: int|
                    0 <= i < places@.len() ==> #[trigger] apps[i]
                        == td.container_definitions@[places@[i] as int]@,
                exported_containers(apps, i as int) == Ok::<Seq<ContainerSpecView>, Problem>(
                    out@.map_values(|c: ContainerSpec| c@),
                ),
            decreases places@.len() - i,
        {
            let ghost before = out@.map_values(|c: ContainerSpec| c@);
            assert(apps[i as int] == td.container_definitions@[places@[i as int] as int]@);
            match container_to_spec(&td.container_definitions[places[i]]) {
                Ok(c) => {
                    out.push(c);
                    assert(out@.map_values(|c: ContainerSpec| c@) =~= before.push(c@));
                },
                Err(e) => {
                    proof {
                        lemma_containers_err(apps, i + 1, apps.len() as int);
                    }
                    return Err(e);
                },
            }
            i = i + 1;
        }
        let part = Part {
            image: String::from_str(""),
            container_name: None,
            port: 0,
            command: None,
            env: StrMap::new(),
            secrets: StrMap::new(),
            log_group: None,
            containers: Some(out),
        };
        proof {
            assert(part@.env =~= Map::<Seq<char>, Seq<char>>::empty());
            assert(part@.secrets =~= Map::<Seq<char>, Seq<char>>::empty());
        }
        Ok(part)
    } else {
        Ok(
            Part {
                image: match &first.image {
                    Some(image) => image.clone(),
                    None => String::from_str("?"),
                },
                container_name: Some(String::from_str(name_or_app(first))),
                port: read_port(first),
                command: read_list(&first.command),
                env: read_env(first),
                secrets: read_secrets(first),
                log_group: read_log_group(first),
                containers: None,
            },
        )
    }
}

/// The first service of an answer, and the task definition that it runs.
pub open spec fn described_service(list: Seq<ServiceView>) -> Result<Seq<char>, Problem> {
    if list.len() == 0 {
        Err((ExportProblem::ServiceNotFound, "service not found"@))
    } else {
        match list[0].task_definition {
            Some(arn) => Ok(arn),
            None => Err((ExportProblem::NoTaskDefinition, "no task definition"@)),
        }
    }
}

/// The task definition that the first service of an answer runs.
pub fn task_definition_of(list: &Vec<ServiceDescription>) -> (r: Result<
    String,
    Error<ExportProblem>,
>)
    ensures
        match r {
            Ok(arn) => described_service(list@.map_values(|s: ServiceDescription| s@)) == Ok::<
                Seq<char>,
                Problem,
            >(arn@),
            Err(e) => described_service(list@.map_values(|s: ServiceDescription| s@)) == Err::<
                Seq<char>,
                Problem,
            >(e@),
        },
{
    if list.len() == 0 {
        return Err(
            Error {
                kind: ExportProblem::ServiceNotFound,
                message: String::from_str("service not found"),
            },
        );
    }
    match &list[0].task_definition {
        Some(arn) => Ok(arn.clone()),
        None => Err(
            Error {
                kind: ExportProblem::NoTaskDefinition,
                message: String::from_str("no task definition"),
            },
        ),
    }
}

fn empty_list() -> (r: Vec<String>)
    ensures
        text::texts(r@) == Seq::<Seq<char>>::empty(),
{
    let out: Vec<String> = Vec::new();
    assert(text::texts(out@) =~= Seq::empty());
    out
}

/// Writes the specification of a service from what ECS says of it and of its
/// task definition.
pub fn build_spec(
    cluster: &str,
    service: &str,
    svc: &ServiceDescription,
    td: &TaskDefinition,
) -> (r: Result<ServiceSpec, Error<ExportProblem>>)
    ensures
        match r {
            Ok(spec) => export_result(cluster@, service@, svc@, td@) == Ok::<
                ServiceSpecView,
                Problem,
            >(spec@),
            Err(e) => export_result(cluster@, service@, svc@, td@) == Err::<
                ServiceSpecView,
                Problem,
            >(e@),
        },
{
    let volumes = match read_volumes(td) {
        Ok(list) => list,
        Err(e) => {
            return Err(e);
        },
    };
    let part = match read_part(td) {
        Ok(part) => part,
        Err(e) => {
            return Err(e);
        },
    };
    let ghost seen = part@;
    let (subnets, security_groups, assign_public_ip) = match &svc.network {
        Some(n) => (
            text::copy_all(&n.subnets),
            text::copy_all(&n.security_groups),
            match &n.assign_public_ip {
                Some(word) => text::same(word.as_str(), "ENABLED"),
                None => false,
            },
        ),
        None => (empty_list(), empty_list(), false),
    };
    let spec = ServiceSpec {
        api_version: Some(String::from_str("ecsctl/v1")),
        kind: Some(String::from_str("Service")),
        metadata: Metadata {
            name: String::from_str(service),
            cluster: String::from_str(cluster),
        },
        spec: Spec {
            image: part.image,
            cpu: String::from_str(text::str_or(&td.cpu, "256")),
            memory: String::from_str(text::str_or(&td.memory, "512")),
            arch: String::from_str(text::str_or(&td.cpu_architecture, "X86_64")),
            capacity: if svc.capacity_providers.len() > 0 {
                svc.capacity_providers[0].clone()
            } else {
                String::from_str("FARGATE")
            },
            desired_count: svc.desired_count,
            exec_enabled: svc.enable_execute_command,
            env: part.env,
            secrets: part.secrets,
            log_group: part.log_group,
            execution_role_arn: text::copy_opt(&td.execution_role_arn),
            task_role_arn: text::copy_opt(&td.task_role_arn),
            subnets: Some(subnets),
            security_groups: Some(security_groups),
            assign_public_ip,
            container_name: part.container_name,
            port: part.port,
            command: part.command,
            containers: part.containers,
            volumes,
        },
    };
    proof {
        assert(spec@.spec.volumes == volumes@.map_values(|v: VolumeSpec| v@));
        assert(spec@ =~= exported_service(
            cluster@,
            service@,
            svc@,
            td@,
            volumes@.map_values(|v: VolumeSpec| v@),
            seen,
        ));
    }
    Ok(spec)
}

/// What is said while the first `n` of the containers of a service are
/// exported, up to the first that is refused.
pub open spec fn warnings_upto(apps: Seq<ContainerView>, n: int) -> Seq<Seq<char>>
    decreases n,
{
    if n <= 0 {
        Seq::empty()
    } else if exported_containers(apps, n - 1) is Err {
        warnings_upto(apps, n - 1)
    } else {
        warnings_upto(apps, n - 1) + dropped_messages(
            exported_name(apps[n - 1]),
            apps[n - 1].depends_on,
        )
    }
}

/// What is said while a service is exported.
pub open spec fn export_warnings(td: TaskDefinitionView) -> Seq<Seq<char>> {
    let apps = app_containers(td.container_definitions);
    if exported_volumes(td.volumes, td.volumes.len() as int) is Err {
        Seq::empty()
    } else {
        warnings_upto(apps, apps.len() as int)
    }
}

/// Lists what is said while a service is exported, one line each: which
/// dependencies the specification leaves out.
pub fn list_warnings(td: &TaskDefinition) -> (r: Vec<String>)
    ensures
        text::texts(r@) == export_warnings(td@),
{
    let mut out = empty_list();
    if read_volumes(td).is_err() {
        return out;
    }
    let places = app_places(td);
    let ghost apps = app_containers(td@.container_definitions);
    assert forall|i: int| 0 <= i < places@.len() implies #[trigger] apps[i]
        == td.container_definitions@[places@[i] as int]@ by {
        assert(apps[i] == places@.map_values(|i: usize| td@.container_definitions[i as int])[i]);
    }
    let mut refused = false;
    let mut i: usize = 0;
    while i < places.len()
        invariant
            i <= places@.len(),
            places@.len() == apps.len(),
            forall|i: int|
                0 <= i < places@.len() ==> #[trigger] places@[i] < td.container_definitions@.len(),
            forall|i: int|
                0 <= i < places@.len() ==> #[trigger] apps[i]
                    == td.container_definitions@[places@[i] as int]@,
            refused == exported_containers(apps, i as int) is Err,
            text::texts(out@) == warnings_upto(apps, i as int),
        decreases places@.len() - i,
    {
        let cd = &td.container_definitions[places[i]];
        assert(apps[i as int] == cd@);
        if !refused {
            let ghost before = text::texts(out@);
            let mut more = dropped_dependencies(cd);
            let ghost added = more@;
            out.append(&mut more);
            assert(text::texts(out@) =~= before + text::texts(added));
            refused = container_to_spec(cd).is_err();
        }
        i = i + 1;
    }
    out
}

/// A container needs an entry in a list exactly if it has a user, a read-only file system,
/// an entry point, something to wait for, Linux settings or mounts.
pub proof fn lemma_needs_list(cd: ContainerView)
    ensures
        uses_new_fields(cd) <==> {
            ||| cd.user is Some
            ||| cd.readonly_root_filesystem == Some(true)
            ||| (cd.entry_point matches Some(l) && l.len() > 0)
            ||| cd.depends_on.len() > 0
            ||| cd.linux_parameters is Some
            ||| cd.mount_points.len() > 0
        },
{
}

/// An exported container has the settings of the container that it describes; what ECS
/// does not say is what ECS takes for it.
pub proof fn lemma_export_keeps_settings(cd: ContainerView)
    requires
        exported_container(cd) is Ok,
    ensures
        ({
            let c = exported_container(cd)->Ok_0;
            &&& cd.name matches Some(name) ==> c.name == name
            &&& cd.name is None ==> c.name == "app"@
            &&& cd.image matches Some(image) ==> c.image == image
            &&& cd.image is None ==> c.image == "?"@
            &&& c.essential <==> cd.essential != Some(false)
            &&& c.user == cd.user
            &&& c.readonly_root_filesystem <==> cd.readonly_root_filesystem == Some(true)
            &&& cd.command matches Some(l) ==> (l.len() > 0 ==> c.command == Some(l))
            &&& (cd.command matches Some(l) ==> l.len() == 0) ==> c.command is None
            &&& cd.entry_point matches Some(l) ==> (l.len() > 0 ==> c.entry_point == Some(l))
            &&& (cd.entry_point matches Some(l) ==> l.len() == 0) ==> c.entry_point is None
            &&& cd.port_mappings.len() == 0 ==> c.port == 0
            &&& cd.port_mappings.len() > 0 && cd.port_mappings[0].0 is None ==> c.port == 0
            &&& cd.port_mappings.len() > 0 ==> (cd.port_mappings[0].0 matches Some(port) ==> (0
                <= port <= 0xffff ==> c.port == port))
            &&& c.log_group is Some <==> (cd.log_configuration matches Some(lc)
                && lc.options matches Some(m) && m.contains_key("awslogs-group"@))
            &&& c.log_group matches Some(group) ==> group
                == cd.log_configuration->0.options->0["awslogs-group"@]
            &&& c.capabilities_drop is Some <==> (cd.linux_parameters matches Some(Some(_)))
            &&& cd.linux_parameters matches Some(Some((added, dropped))) ==> c.capabilities_drop
                == Some(dropped) && added.len() == 0
        }),
{
}

/// A container is refused exactly if it adds capabilities, or drops one that cannot be
/// applied again.
pub proof fn lemma_refused_container(cd: ContainerView)
    ensures
        exported_container(cd) is Err <==> (cd.linux_parameters matches Some(Some((added, dropped)))
            && (added.len() > 0 || exists|i: int|
            0 <= i < dropped.len() && !crate::apply::known_capabilities().contains(
                #[trigger] dropped[i],
            ))),
        exported_container(cd) matches Err(e) ==> (e.0 == ExportProblem::AddsCapabilities <==> (
        cd.linux_parameters->0->0).0.len() > 0),
{
    if let Some(Some((added, dropped))) = cd.linux_parameters {
        lemma_unknown_from(dropped, 0);
    }
}

proof fn lemma_unknown_from(list: Seq<Seq<char>>, i: int)
    requires
        0 <= i <= list.len(),
    ensures
        i <= first_unknown(list, i) <= list.len(),
        first_unknown(list, i) < list.len() <==> exists|k: int|
            i <= k < list.len() && !crate::apply::known_capabilities().contains(
                #[trigger] list[k],
            ),
    decreases list.len() - i,
{
    if i < list.len() && crate::apply::known_capabilities().contains(list[i]) {
        lemma_unknown_from(list, i + 1);
    } else if i < list.len() {
        assert(!crate::apply::known_capabilities().contains(list[i]));
    }
}

/// Of the variables of a container, each that has a name and a value is exported under its
/// name; a later one takes the place of an earlier one, and others do not count.
pub proof fn lemma_exported_variables(
    list: Seq<(Option<Seq<char>>, Option<Seq<char>>)>,
    k: Seq<char>,
    v: Seq<char>,
    half: Option<Seq<char>>,
)
    ensures
        exported_env(Seq::empty()) == Map::<Seq<char>, Seq<char>>::empty(),
        exported_env(list.push((Some(k), Some(v)))) == exported_env(list).insert(k, v),
        exported_env(list.push((half, None))) == exported_env(list),
        exported_env(list.push((None, half))) == exported_env(list),
{
    assert(list.push((Some(k), Some(v))).drop_last() =~= list);
    assert(list.push((half, None)).drop_last() =~= list);
    assert(list.push((None, half)).drop_last() =~= list);
}

/// Of the mounts of a container, each that has a path and a volume is exported under its
/// path, for reading only exactly if it is mounted so.
pub proof fn lemma_exported_mount(
    list: Seq<MountPointView>,
    path: Seq<char>,
    volume: Seq<char>,
    read_only: Option<bool>,
)
    ensures
        exported_mounts(Seq::empty()) == Map::<Seq<char>, MountSpecView>::empty(),
        ({
            let m = MountPointView {
                source_volume: Some(volume),
                container_path: Some(path),
                read_only,
            };
            let out = exported_mounts(list.push(m));
            &&& out.contains_key(path)
            &&& read_only == Some(true) ==> out[path] == (MountSpecView::Detailed {
                source_volume: volume,
                read_only: true,
            })
            &&& read_only != Some(true) ==> out[path] == MountSpecView::Volume(volume)
            &&& out.remove(path) == exported_mounts(list).remove(path)
        }),
        exported_mounts(
            list.push(
                MountPointView { source_volume: None, container_path: Some(path), read_only },
            ),
        ) == exported_mounts(list),
        exported_mounts(
            list.push(
                MountPointView { source_volume: Some(volume), container_path: None, read_only },
            ),
        ) == exported_mounts(list),
{
    let m = MountPointView { source_volume: Some(volume), container_path: Some(path), read_only };
    assert(list.push(m).drop_last() =~= list);
    let a = MountPointView { source_volume: None, container_path: Some(path), read_only };
    assert(list.push(a).drop_last() =~= list);
    let b = MountPointView { source_volume: Some(volume), container_path: None, read_only };
    assert(list.push(b).drop_last() =~= list);
    assert(exported_mounts(list.push(m)).remove(path) =~= exported_mounts(list).remove(path));
}

/// Of the dependencies of a container, those on a start, a success or an end are exported
/// as they are, in order; of every other one it is said that it is left out.
pub proof fn lemma_exported_dependency(
    container: Seq<char>,
    list: Seq<(Seq<char>, ConditionView)>,
    name: Seq<char>,
    c: ConditionView,
)
    ensures
        exported_dependencies(Seq::empty()).len() == 0,
        dropped_messages(container, Seq::empty()).len() == 0,
        c is Start ==> exported_dependencies(list.push((name, c))) == exported_dependencies(
            list,
        ).push((name, DependsOnCondition::Start)),
        c is Success ==> exported_dependencies(list.push((name, c))) == exported_dependencies(
            list,
        ).push((name, DependsOnCondition::Success)),
        c is Complete ==> exported_dependencies(list.push((name, c))) == exported_dependencies(
            list,
        ).push((name, DependsOnCondition::Complete)),
        c is Start || c is Success || c is Complete ==> dropped_messages(
            container,
            list.push((name, c)),
        ) == dropped_messages(container, list),
        c is Healthy || c is Other ==> exported_dependencies(list.push((name, c)))
            == exported_dependencies(list) && dropped_messages(
            container,
            list.push((name, c)),
        ).len() == dropped_messages(container, list).len() + 1 && text::occurs(
            dropped_messages(container, list.push((name, c))).last(),
            container + " -> "@ + name,
        ),
{
    assert(list.push((name, c)).drop_last() =~= list);
    if c is Healthy || c is Other {
        let message = dropped_message(container, (name, c));
        let needle = container + " -> "@ + name;
        let n = "  \u{26a0}\u{fe0f}  dropping dependsOn "@.len() as int;
        assert(message.subrange(n, n + needle.len()) =~= needle);
    }
}

/// The containers of the service itself are all but those whose name begins like that of
/// one that ECS puts there, in their order.
pub proof fn lemma_own_containers(list: Seq<ContainerView>, cd: ContainerView)
    ensures
        app_containers(Seq::empty()).len() == 0,
        (cd.name matches Some(name) && "ecs-service-connect-"@.is_prefix_of(name))
            ==> app_containers(list.push(cd)) == app_containers(list),
        !(cd.name matches Some(name) && "ecs-service-connect-"@.is_prefix_of(name))
            ==> app_containers(list.push(cd)) == app_containers(list).push(cd),
{
    assert(list.push(cd).drop_last() =~= list);
}

/// A volume is refused exactly if it has no name, or is of a kind or has a setting that a
/// specification cannot express.
pub proof fn lemma_refused_volume(v: VolumeView)
    ensures
        exported_volume(v) is Err <==> {
            ||| v.name is None
            ||| v.has_docker_configuration
            ||| v.has_fsx_configuration
            ||| v.host_source_path is Some
            ||| v.configured_at_launch == Some(true)
            ||| (v.efs_volume_configuration matches Some(efs) && {
                ||| efs.transit_encryption_port is Some
                ||| (efs.transit_encryption matches Some(w) && w != "ENABLED"@ && w != "DISABLED"@)
                ||| (efs.authorization_config matches Some((_, iam)) && iam matches Some(w) && w
                    != "ENABLED"@ && w != "DISABLED"@)
            })
        },
{
}

/// A volume that is not refused is exported as it is: on its file system, with all its
/// settings, or as scratch space.
pub proof fn lemma_exported_volume_is_kept(v: VolumeView)
    requires
        exported_volume(v) is Ok,
    ensures
        ({
            let out = exported_volume(v)->Ok_0;
            &&& v.name == Some(out.name)
            &&& !out.configured_at_launch
            &&& out.efs is Some <==> v.efs_volume_configuration is Some
            &&& v.efs_volume_configuration matches Some(efs) ==> {
                &&& out.efs->0.file_system_id == efs.file_system_id
                &&& out.efs->0.root_directory == efs.root_directory
                &&& out.efs->0.transit_encryption == efs.transit_encryption
                &&& efs.authorization_config matches Some((point, iam)) ==>
                    out.efs->0.access_point_id == point && out.efs->0.iam == iam
                &&& efs.authorization_config is None ==> out.efs->0.access_point_id is None
                    && out.efs->0.iam is None
            }
        }),
{
}

proof fn lemma_volumes_in_order(list: Seq<VolumeView>, n: int)
    requires
        0 <= n <= list.len(),
    ensures
        exported_volumes(list, n) matches Ok(out) ==> out.len() == n && forall|i: int|
            0 <= i < n ==> exported_volume(list[i]) == Ok::<VolumeSpecView, Problem>(
                #[trigger] out[i],
            ),
        exported_volumes(list, n) is Err <==> exists|i: int|
            0 <= i < n && exported_volume(#[trigger] list[i]) is Err,
    decreases n,
{
    if n > 0 {
        lemma_volumes_in_order(list, n - 1);
        if exported_volumes(list, n) is Ok {
            let before = exported_volumes(list, n - 1)->Ok_0;
            let out = exported_volumes(list, n)->Ok_0;
            assert forall|i: int| 0 <= i < n implies exported_volume(list[i]) == Ok::<
                VolumeSpecView,
                Problem,
            >(#[trigger] out[i]) by {
                if i < n - 1 {
                    assert(out[i] == before[i]);
                }
            }
        } else if exported_volumes(list, n - 1) is Ok {
            assert(exported_volume(list[n - 1]) is Err);
        }
    }
}

proof fn lemma_containers_in_order(list: Seq<ContainerView>, n: int)
    requires
        0 <= n <= list.len(),
    ensures
        exported_containers(list, n) matches Ok(out) ==> out.len() == n && forall|i: int|
            0 <= i < n ==> exported_container(list[i]) == Ok::<ContainerSpecView, Problem>(
                #[trigger] out[i],
            ),
        exported_containers(list, n) is Err <==> exists|i: int|
            0 <= i < n && exported_container(#[trigger] list[i]) is Err,
    decreases n,
{
    if n > 0 {
        lemma_containers_in_order(list, n - 1);
        if exported_containers(list, n) is Ok {
            let before = exported_containers(list, n - 1)->Ok_0;
            let out = exported_containers(list, n)->Ok_0;
            assert forall|i: int| 0 <= i < n implies exported_container(list[i]) == Ok::<
                ContainerSpecView,
                Problem,
            >(#[trigger] out[i]) by {
                if i < n - 1 {
                    assert(out[i] == before[i]);
                }
            }
        } else if exported_containers(list, n - 1) is Ok {
            assert(exported_container(list[n - 1]) is Err);
        }
    }
}

/// A single container that needs no list is described directly, with its own settings; and
/// otherwise all containers are listed, in their order.
pub proof fn lemma_exported_containers(apps: Seq<ContainerView>)
    ensures
        apps.len() == 0 ==> exported_part(apps) is Err,
        exported_part(apps) matches Ok(part) ==> {
            if apps.len() == 1 && apps[0].user is None && apps[0].readonly_root_filesystem != Some(
                true,
            ) && (apps[0].entry_point matches Some(l) ==> l.len() == 0)
                && apps[0].depends_on.len() == 0 && apps[0].linux_parameters is None
                && apps[0].mount_points.len() == 0 {
                &&& part.containers is None
                &&& apps[0].image matches Some(image) ==> part.image == image
                &&& apps[0].name matches Some(name) ==> part.container_name == Some(name)
                &&& apps[0].name is None ==> part.container_name == Some("app"@)
                &&& part.env == exported_env(apps[0].environment)
                &&& part.secrets == textmap::collected(apps[0].secrets)
                &&& part.log_group is Some <==> (apps[0].log_configuration matches Some(lc)
                    && lc.options matches Some(m) && m.contains_key("awslogs-group"@))
                &&& part.log_group matches Some(group) ==> group
                    == apps[0].log_configuration->0.options->0["awslogs-group"@]
                &&& apps[0].command matches Some(l) ==> (l.len() > 0 ==> part.command == Some(l))
                &&& apps[0].command is None ==> part.command is None
                &&& apps[0].port_mappings.len() > 0 ==> (
                apps[0].port_mappings[0].0 matches Some(port) ==> (0 <= port <= 0xffff ==> part.port
                    == port))
                &&& apps[0].port_mappings.len() == 0 ==> part.port == 0
            } else {
                part.containers matches Some(list) && list.len() == apps.len() && forall|i: int|
                    0 <= i < list.len() ==> exported_container(apps[i]) == Ok::<
                        ContainerSpecView,
                        Problem,
                    >(#[trigger] list[i])
            }
        },
{
    if apps.len() > 0 {
        lemma_containers_in_order(apps, apps.len() as int);
    }
}

/// An exported container has the variables, secrets, dependencies and mounts of the
/// container that it describes.
pub proof fn lemma_export_keeps_lists(cd: ContainerView)
    requires
        exported_container(cd) is Ok,
    ensures
        exported_container(cd)->Ok_0.env == exported_env(cd.environment),
        exported_container(cd)->Ok_0.secrets == textmap::collected(cd.secrets),
        exported_container(cd)->Ok_0.depends_on == exported_dependencies(cd.depends_on),
        exported_container(cd)->Ok_0.mount_points == exported_mounts(cd.mount_points),
{
}

/// An exported service has the size, the roles, the counts and the network of the service
/// that it describes; what ECS does not say is what a specification takes for it.
pub proof fn lemma_export_keeps_service(
    cluster: Seq<char>,
    service: Seq<char>,
    svc: ServiceView,
    td: TaskDefinitionView,
)
    requires
        export_result(cluster, service, svc, td) is Ok,
    ensures
        ({
            let out = export_result(cluster, service, svc, td)->Ok_0;
            &&& out.name == service
            &&& out.cluster == cluster
            &&& out.api_version == Some("ecsctl/v1"@)
            &&& out.kind == Some("Service"@)
            &&& out.spec.desired_count == svc.desired_count
            &&& out.spec.exec_enabled == svc.enable_execute_command
            &&& td.cpu matches Some(cpu) ==> out.spec.cpu == cpu
            &&& td.cpu is None ==> out.spec.cpu == "256"@
            &&& td.memory matches Some(memory) ==> out.spec.memory == memory
            &&& td.memory is None ==> out.spec.memory == "512"@
            &&& td.cpu_architecture matches Some(arch) ==> out.spec.arch == arch
            &&& td.cpu_architecture is None ==> out.spec.arch == "X86_64"@
            &&& svc.capacity_providers.len() > 0 ==> out.spec.capacity == svc.capacity_providers[0]
            &&& svc.capacity_providers.len() == 0 ==> out.spec.capacity == "FARGATE"@
            &&& out.spec.execution_role_arn == td.execution_role_arn
            &&& out.spec.task_role_arn == td.task_role_arn
            &&& svc.network matches Some(n) ==> out.spec.subnets == Some(n.subnets)
                && out.spec.security_groups == Some(n.security_groups)
                && (out.spec.assign_public_ip <==> n.assign_public_ip == Some("ENABLED"@))
            &&& svc.network is None ==> out.spec.subnets == Some(Seq::<Seq<char>>::empty())
                && out.spec.security_groups == Some(Seq::<Seq<char>>::empty())
                && !out.spec.assign_public_ip
            &&& out.spec.volumes.len() == td.volumes.len()
            &&& forall|i: int|
                0 <= i < td.volumes.len() ==> exported_volume(td.volumes[i]) == Ok::<
                    VolumeSpecView,
                    Problem,
                >(#[trigger] out.spec.volumes[i])
            &&& exported_part(app_containers(td.container_definitions)) matches Ok(part)
                && out.spec.image == part.image && out.spec.container_name == part.container_name
                && out.spec.port == part.port && out.spec.command == part.command && out.spec.env
                == part.env && out.spec.secrets == part.secrets && out.spec.log_group
                == part.log_group && out.spec.containers == part.containers
        }),
{
    lemma_volumes_in_order(td.volumes, td.volumes.len() as int);
}

/// A service is refused exactly if one of its volumes is, if it has no container of its
/// own, or if one of several containers is, or one that needs a list.
pub proof fn lemma_refused_service(
    cluster: Seq<char>,
    service: Seq<char>,
    svc: ServiceView,
    td: TaskDefinitionView,
)
    ensures
        export_result(cluster, service, svc, td) is Err <==> {
            let apps = app_containers(td.container_definitions);
            ||| exists|i: int|
                0 <= i < td.volumes.len() && exported_volume(#[trigger] td.volumes[i]) is Err
            ||| apps.len() == 0
            ||| (apps.len() > 1 || uses_new_fields(apps[0])) && exists|i: int|
                0 <= i < apps.len() && exported_container(#[trigger] apps[i]) is Err
        },
{
    let apps = app_containers(td.container_definitions);
    lemma_volumes_in_order(td.volumes, td.volumes.len() as int);
    lemma_containers_in_order(apps, apps.len() as int);
}

/// The service that is exported is the first that was found, and its task definition is
/// the one it runs.
pub proof fn lemma_first_service_counts(list: Seq<ServiceView>)
    ensures
        list.len() == 0 ==> (described_service(list) matches Err(e) && e.0
            == ExportProblem::ServiceNotFound),
        list.len() > 0 && list[0].task_definition is None ==> (described_service(list) matches Err(e)
            && e.0 == ExportProblem::NoTaskDefinition),
        list.len() > 0 ==> (list[0].task_definition matches Some(arn) ==> described_service(list)
            == Ok::<Seq<char>, Problem>(arn)),
{
}

/// Nothing is said of a service whose dependencies can all be expressed; and of every
/// service that is exported, all that is left out is said, container by container.
pub proof fn lemma_all_is_said(td: TaskDefinitionView, apps: Seq<ContainerView>, n: int)
    requires
        apps == app_containers(td.container_definitions),
        exported_volumes(td.volumes, td.volumes.len() as int) is Ok,
        0 < n <= apps.len(),
        exported_containers(apps, n - 1) is Ok,
    ensures
        warnings_upto(apps, 0).len() == 0,
        warnings_upto(apps, n) == warnings_upto(apps, n - 1) + dropped_messages(
            match apps[n - 1].name {
                Some(name) => name,
                None => "app"@,
            },
            apps[n - 1].depends_on,
        ),
        export_warnings(td) == warnings_upto(apps, apps.len() as int),
{
}

/// Containers that are exported as a list leave nothing to the fields for a single one; a
/// single one that needs no list is described by those fields alone.
pub proof fn lemma_list_or_fields(apps: Seq<ContainerView>)
    requires
        exported_part(apps) is Ok,
    ensures
        apps.len() > 0,
        apps.len() > 1 || uses_new_fields(apps[0]) ==> {
            let part = exported_part(apps)->Ok_0;
            &&& part.containers is Some
            &&& part.image == ""@
            &&& part.container_name is None
            &&& part.port == 0
            &&& part.command is None
            &&& part.env == Map::<Seq<char>, Seq<char>>::empty()
            &&& part.secrets == Map::<Seq<char>, Seq<char>>::empty()
            &&& part.log_group is None
        },
        apps.len() == 1 && !uses_new_fields(apps[0]) ==> {
            let part = exported_part(apps)->Ok_0;
            let cd = apps[0];
            &&& part.containers is None
            &&& cd.image matches Some(image) ==> part.image == image
            &&& cd.name matches Some(name) ==> part.container_name == Some(name)
            &&& cd.port_mappings.len() == 0 ==> part.port == 0
            &&& cd.port_mappings.len() > 0 ==> (cd.port_mappings[0].0 matches Some(port) ==> (0
                <= port <= 0xffff ==> part.port == port))
            &&& cd.command matches Some(l) ==> (l.len() > 0 ==> part.command == Some(l))
            &&& part.env == exported_env(cd.environment)
            &&& part.secrets == textmap::collected(cd.secrets)
            &&& part.log_group is Some <==> (cd.log_configuration matches Some(lc)
                && lc.options matches Some(m) && m.contains_key("awslogs-group"@))
        },
{
}

} // verus!
