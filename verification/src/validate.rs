//! Which service specifications can be deployed, and what is said of the others.

use crate::apply::{
    is_known_capability, ContainerSpec, DependsOn, DependsOnCondition, ServiceSpec, Spec,
    VolumeSpec,
};
use crate::depgraph;
use crate::error::Error;
use crate::number;
use crate::order;
use crate::strmap::StrMap;
use crate::text;
use crate::text::same;
use vstd::prelude::*;

verus! {

/// What can be wrong with a specification.
#[derive(Debug, Clone, Copy, PartialEq, Eq, Structural)]
pub enum SpecProblem {
    Arch,
    Capacity,
    CpuNotANumber,
    MemoryNotANumber,
    Cpu,
    Memory,
    DesiredCount,
    NoContainers,
    DuplicateContainer,
    DuplicateVolume,
    NoEssentialContainer,
    UnknownCapability,
    UnknownDependency,
    SelfDependency,
    EssentialDependency,
    HealthyDependency,
    UnknownVolume,
    DependencyCycle,
}

/// A problem and the message that explains it.
pub type Problem = (SpecProblem, Seq<char>);

/// Multiples of 1024, from the `first` to the `last`.
pub open spec fn gibibytes(first: int, last: int) -> Seq<u32> {
    Seq::new((last - first + 1) as nat, |i: int| ((first + i) * 1024) as u32)
}

/// The memory sizes that Fargate offers for an amount of CPU.
pub open spec fn fargate_memories(cpu: int) -> Seq<u32> {
    if cpu == 256 {
        seq![512u32, 1024u32, 2048u32]
    } else if cpu == 512 {
        gibibytes(1, 4)
    } else if cpu == 1024 {
        gibibytes(2, 8)
    } else if cpu == 2048 {
        gibibytes(4, 16)
    } else if cpu == 4096 {
        gibibytes(8, 30)
    } else {
        Seq::empty()
    }
}

/// The decimal texts of a list of numbers.
pub open spec fn decimals(list: Seq<u32>) -> Seq<Seq<char>> {
    list.map_values(|n: u32| number::decimal(n as nat))
}

/// Lists the multiples of 1024 in a range.
fn gibibyte_list(first: u32, last: u32) -> (r: Vec<u32>)
    requires
        first <= last <= 1000,
    ensures
        r@ == gibibytes(first as int, last as int),
{
    let mut out: Vec<u32> = Vec::new();
    let mut g: u32 = first;
    while g <= last
        invariant
            first <= g <= last + 1,
            last <= 1000,
            out@ == gibibytes(first as int, g - 1),
        decreases last + 1 - g,
    {
        out.push(g * 1024);
        assert(out@ =~= gibibytes(first as int, g as int));
        g = g + 1;
    }
    out
}

/// Lists the memory sizes that Fargate offers for an amount of CPU.
fn memory_sizes(cpu: u32) -> (r: Vec<u32>)
    ensures
        r@ == fargate_memories(cpu as int),
{
    if cpu == 256 {
        let mut out: Vec<u32> = Vec::new();
        out.push(512);
        out.push(1024);
        out.push(2048);
        assert(out@ =~= seq![512u32, 1024u32, 2048u32]);
        out
    } else if cpu == 512 {
        gibibyte_list(1, 4)
    } else if cpu == 1024 {
        gibibyte_list(2, 8)
    } else if cpu == 2048 {
        gibibyte_list(4, 16)
    } else if cpu == 4096 {
        gibibyte_list(8, 30)
    } else {
        Vec::new()
    }
}

/// Joins numbers with a comma and a space.
fn number_list(list: &Vec<u32>) -> (r: String)
    ensures
        r@ == text::join(decimals(list@), ", "@),
{
    let mut parts: Vec<String> = Vec::new();
    let mut i: usize = 0;
    while i < list.len()
        invariant
            i <= list@.len(),
            text::texts(parts@) == decimals(list@).take(i as int),
        decreases list@.len() - i,
    {
        let ghost before = text::texts(parts@);
        parts.push(number::to_decimal(list[i] as u128));
        assert(text::texts(parts@) =~= before.push(number::decimal(list@[i as int] as nat)));
        assert(decimals(list@).take(i + 1) =~= decimals(list@).take(i as int).push(
            decimals(list@)[i as int],
        ));
        i = i + 1;
    }
    assert(decimals(list@).take(list@.len() as int) =~= decimals(list@));
    text::join_all(&parts, ", ")
}

/// What is wrong with the size, architecture, capacity or count of a service.
pub open spec fn platform_problem(spec: Spec) -> Option<Problem> {
    let cpu = number::parse_unsigned_spec(spec.cpu@, u32::MAX as nat);
    let memory = number::parse_unsigned_spec(spec.memory@, u32::MAX as nat);
    if spec.arch@ != "X86_64"@ && spec.arch@ != "ARM64"@ {
        Some(
            (
                SpecProblem::Arch,
                "invalid arch '"@ + spec.arch@ + "': expected X86_64 or ARM64"@,
            ),
        )
    } else if spec.capacity@ != "FARGATE"@ && spec.capacity@ != "FARGATE_SPOT"@ {
        Some(
            (
                SpecProblem::Capacity,
                "invalid capacity '"@ + spec.capacity@ + "': expected FARGATE or FARGATE_SPOT"@,
            ),
        )
    } else if cpu is None {
        Some((SpecProblem::CpuNotANumber, "cpu must be a number (e.g. \"256\")"@))
    } else if memory is None {
        Some((SpecProblem::MemoryNotANumber, "memory must be a number (e.g. \"512\")"@))
    } else {
        let sizes = fargate_memories(cpu->0 as int);
        if sizes.len() == 0 {
            Some(
                (
                    SpecProblem::Cpu,
                    "invalid cpu '"@ + number::decimal(cpu->0)
                        + "': valid values are 256, 512, 1024, 2048, 4096"@,
                ),
            )
        } else if !sizes.contains(memory->0 as u32) {
            Some(
                (
                    SpecProblem::Memory,
                    "invalid memory '"@ + number::decimal(memory->0) + "' for cpu '"@
                        + number::decimal(cpu->0) + "': valid values are "@ + text::join(
                        decimals(sizes),
                        ", "@,
                    ),
                ),
            )
        } else if spec.desired_count < 0 {
            Some((SpecProblem::DesiredCount, "desiredCount must be >= 0"@))
        } else {
            None
        }
    }
}

/// Builds an error.
fn problem(kind: SpecProblem, message: String) -> (r: Error<SpecProblem>)
    ensures
        r@ == (kind, message@),
{
    Error { kind, message }
}

/// Checks the size, architecture, capacity and count of a service.
fn check_platform(spec: &Spec) -> (r: Option<Error<SpecProblem>>)
    ensures
        match r {
            None => platform_problem(*spec) is None,
            Some(e) => platform_problem(*spec) == Some(e@),
        },
{
    if !same(spec.arch.as_str(), "X86_64") && !same(spec.arch.as_str(), "ARM64") {
        let mut m = String::from_str("invalid arch '");
        m.append(spec.arch.as_str());
        m.append("': expected X86_64 or ARM64");
        return Some(problem(SpecProblem::Arch, m));
    }
    if !same(spec.capacity.as_str(), "FARGATE") && !same(spec.capacity.as_str(), "FARGATE_SPOT") {
        let mut m = String::from_str("invalid capacity '");
        m.append(spec.capacity.as_str());
        m.append("': expected FARGATE or FARGATE_SPOT");
        return Some(problem(SpecProblem::Capacity, m));
    }
    let cpu = match number::parse_unsigned(spec.cpu.as_str(), 0xffff_ffff) {
        Some(n) => n as u32,
        None => {
            return Some(
                problem(
                    SpecProblem::CpuNotANumber,
                    String::from_str("cpu must be a number (e.g. \"256\")"),
                ),
            );
        },
    };
    let memory = match number::parse_unsigned(spec.memory.as_str(), 0xffff_ffff) {
        Some(n) => n as u32,
        None => {
            return Some(
                problem(
                    SpecProblem::MemoryNotANumber,
                    String::from_str("memory must be a number (e.g. \"512\")"),
                ),
            );
        },
    };
    let sizes = memory_sizes(cpu);
    if sizes.len() == 0 {
        let mut m = String::from_str("invalid cpu '");
        m.append(number::to_decimal(cpu as u128).as_str());
        m.append("': valid values are 256, 512, 1024, 2048, 4096");
        return Some(problem(SpecProblem::Cpu, m));
    }
    let mut offered = false;
    let mut i: usize = 0;
    while i < sizes.len()
        invariant
            i <= sizes@.len(),
            offered == sizes@.take(i as int).contains(memory),
        decreases sizes@.len() - i,
    {
        proof {
            let before = sizes@.take(i as int);
            let after = sizes@.take(i + 1);
            assert(after =~= before.push(sizes@[i as int]));
            if before.contains(memory) {
                let j = before.index_of(memory);
                assert(after[j] == memory);
            }
            assert(after[i as int] == sizes@[i as int]);
        }
        if sizes[i] == memory {
            offered = true;
        }
        i = i + 1;
    }
    assert(sizes@.take(sizes@.len() as int) =~= sizes@);
    if !offered {
        let mut m = String::from_str("invalid memory '");
        m.append(number::to_decimal(memory as u128).as_str());
        m.append("' for cpu '");
        m.append(number::to_decimal(cpu as u128).as_str());
        m.append("': valid values are ");
        m.append(number_list(&sizes).as_str());
        return Some(problem(SpecProblem::Memory, m));
    }
    if spec.desired_count < 0 {
        return Some(
            problem(SpecProblem::DesiredCount, String::from_str("desiredCount must be >= 0")),
        );
    }
    None
}

/// The names of a list of containers.
pub open spec fn container_names(containers: Seq<ContainerSpec>) -> Seq<Seq<char>> {
    containers.map_values(|c: ContainerSpec| c.name@)
}

/// The names of a list of volumes.
pub open spec fn volume_names(volumes: Seq<VolumeSpec>) -> Seq<Seq<char>> {
    volumes.map_values(|v: VolumeSpec| v.name@)
}

/// The first name, from place `i` on, that has occurred before.
pub open spec fn first_repeated(names: Seq<Seq<char>>, i: int) -> Option<Seq<char>>
    decreases names.len() - i,
{
    if i < 0 || i >= names.len() {
        None
    } else if names.take(i).contains(names[i]) {
        Some(names[i])
    } else {
        first_repeated(names, i + 1)
    }
}

/// What is wrong with the capabilities that a container drops, from place `i`
/// on.
pub open spec fn capability_problem(cs: ContainerSpec, i: int) -> Option<Problem>
    decreases cs.linux_parameters->0.capabilities_drop@.len() - i,
{
    let drops = cs.linux_parameters->0.capabilities_drop@;
    if cs.linux_parameters is None || i < 0 || i >= drops.len() {
        None
    } else if !crate::apply::known_capabilities().contains(drops[i]@) {
        Some(
            (
                SpecProblem::UnknownCapability,
                "container '"@ + cs.name@ + "' drops unknown Linux capability '"@ + drops[i]@
                    + "': ECS accepts only the capability names in its task definition reference (ALL, SYS_ADMIN, NET_RAW, ...), and a typo here is rejected by AWS with an error that does not name the bad value"@,
            ),
        )
    } else {
        capability_problem(cs, i + 1)
    }
}

/// Whether a container of this name is essential.
pub open spec fn is_essential(containers: Seq<ContainerSpec>, name: Seq<char>) -> bool {
    exists|i: int|
        0 <= i < containers.len() && (#[trigger] containers[i]).name@ == name
            && containers[i].essential
}

/// What is wrong with one dependency of a container.
pub open spec fn one_dependency_problem(
    containers: Seq<ContainerSpec>,
    cs: ContainerSpec,
    dep: DependsOn,
) -> Option<Problem> {
    let target = dep.container_name@;
    if !container_names(containers).contains(target) {
        Some(
            (
                SpecProblem::UnknownDependency,
                "container '"@ + cs.name@ + "' dependsOn references '"@ + target
                    + "', which is not defined in spec.containers"@,
            ),
        )
    } else if target == cs.name@ {
        Some(
            (
                SpecProblem::SelfDependency,
                "container '"@ + cs.name@ + "' has a dependsOn on itself"@,
            ),
        )
    } else {
        match dep.condition {
            DependsOnCondition::Start => None,
            DependsOnCondition::Complete | DependsOnCondition::Success => if is_essential(
                containers,
                target,
            ) {
                Some(
                    (
                        SpecProblem::EssentialDependency,
                        "container '"@ + cs.name@ + "' dependsOn '"@ + target + "' with condition "@
                            + dep.condition.word() + ", but '"@ + target
                            + "' is essential: true. AWS rejects this combination (\"A dependency container with SUCCESS or COMPLETE condition cannot be an essential container\") -- set essential: false on '"@
                            + target + "', or use condition: START"@,
                    ),
                )
            } else {
                None
            },
            DependsOnCondition::Healthy => Some(
                (
                    SpecProblem::HealthyDependency,
                    "container '"@ + cs.name@ + "' dependsOn '"@ + target
                        + "' uses condition HEALTHY, which is not yet supported: it requires a healthCheck on '"@
                        + target
                        + "' that this spec has no way to configure, and would fail at RegisterTaskDefinition rather than here. Use START, SUCCESS, or COMPLETE instead"@,
                ),
            ),
        }
    }
}

/// What is wrong with the dependencies of a container, from place `i` on.
pub open spec fn dependency_problem(
    containers: Seq<ContainerSpec>,
    cs: ContainerSpec,
    i: int,
) -> Option<Problem>
    decreases cs.depends_on@.len() - i,
{
    if i < 0 || i >= cs.depends_on@.len() {
        None
    } else {
        match one_dependency_problem(containers, cs, cs.depends_on@[i]) {
            Some(p) => Some(p),
            None => dependency_problem(containers, cs, i + 1),
        }
    }
}

/// What is wrong with the mounts of a container, from place `i` on in the order
/// of their paths.
pub open spec fn mount_problem(volumes: Seq<VolumeSpec>, cs: ContainerSpec, i: int) -> Option<
    Problem,
>
    decreases cs.mount_points.len_spec() - i,
{
    if i < 0 || i >= cs.mount_points.len_spec() {
        None
    } else {
        let volume = cs.mount_points.value(i).volume();
        if !volume_names(volumes).contains(volume) {
            Some(
                (
                    SpecProblem::UnknownVolume,
                    "container '"@ + cs.name@ + "' mounts '"@ + volume + "' at '"@
                        + cs.mount_points.key(i) + "', but '"@ + volume
                        + "' is not defined in spec.volumes"@,
                ),
            )
        } else {
            mount_problem(volumes, cs, i + 1)
        }
    }
}

/// What is wrong with one container.
pub open spec fn one_container_problem(
    containers: Seq<ContainerSpec>,
    volumes: Seq<VolumeSpec>,
    cs: ContainerSpec,
) -> Option<Problem> {
    match capability_problem(cs, 0) {
        Some(p) => Some(p),
        None => match dependency_problem(containers, cs, 0) {
            Some(p) => Some(p),
            None => mount_problem(volumes, cs, 0),
        },
    }
}

/// What is wrong with the containers one by one, from place `i` on.
pub open spec fn each_container_problem(
    containers: Seq<ContainerSpec>,
    volumes: Seq<VolumeSpec>,
    i: int,
) -> Option<Problem>
    decreases containers.len() - i,
{
    if i < 0 || i >= containers.len() {
        None
    } else {
        match one_container_problem(containers, volumes, containers[i]) {
            Some(p) => Some(p),
            None => each_container_problem(containers, volumes, i + 1),
        }
    }
}

/// For each container, the places of the containers it waits for.
pub open spec fn dependency_graph(containers: Seq<ContainerSpec>) -> Seq<Seq<usize>> {
    Seq::new(
        containers.len(),
        |i: int|
            Seq::new(
                containers[i].depends_on@.len(),
                |k: int|
                    container_names(containers).index_of(
                        containers[i].depends_on@[k].container_name@,
                    ) as usize,
            ),
    )
}

/// Whether `n` comes first by name among the nodes that reach a cycle.
pub open spec fn first_by_name(names: Seq<Seq<char>>, g: Seq<Seq<usize>>, n: usize) -> bool {
    &&& n < names.len()
    &&& depgraph::reaches_cycle(g, n)
    &&& forall|m: usize|
        m < names.len() && m != n && #[trigger] depgraph::reaches_cycle(g, m) ==> order::precedes(
            names[n as int],
            names[m as int],
        )
}

/// The cycle that is reported: the one met from the container that comes first
/// by name among those that reach any.
pub open spec fn named_cycle(names: Seq<Seq<char>>, g: Seq<Seq<usize>>) -> Option<Seq<usize>> {
    if exists|n: usize| n < names.len() && depgraph::reaches_cycle(g, n) {
        Some(depgraph::cycle_from(g, seq![choose|n: usize| first_by_name(names, g, n)]))
    } else {
        None
    }
}

/// The names of the nodes of a cycle.
pub open spec fn cycle_names(names: Seq<Seq<char>>, cycle: Seq<usize>) -> Seq<Seq<char>> {
    cycle.map_values(|n: usize| names[n as int])
}

/// Whether the containers wait for each other in a circle.
pub open spec fn cycle_problem(containers: Seq<ContainerSpec>) -> Option<Problem> {
    let names = container_names(containers);
    match named_cycle(names, dependency_graph(containers)) {
        Some(cycle) => Some(
            (
                SpecProblem::DependencyCycle,
                "dependsOn cycle in spec.containers: "@ + text::join(
                    cycle_names(names, cycle),
                    " -> "@,
                )
                    + ". ECS cannot start any container in a cycle, and rejects this at RegisterTaskDefinition"@,
            ),
        ),
        None => None,
    }
}

/// What is wrong with the containers and volumes of a service.
pub open spec fn containers_problem(
    containers: Seq<ContainerSpec>,
    volumes: Seq<VolumeSpec>,
) -> Option<Problem> {
    if containers.len() == 0 {
        Some(
            (
                SpecProblem::NoContainers,
                "spec.containers is present but empty: specify at least one container, or omit spec.containers to use single-container mode"@,
            ),
        )
    } else if let Some(name) = first_repeated(container_names(containers), 0) {
        Some(
            (
                SpecProblem::DuplicateContainer,
                "container name '"@ + name
                    + "' is used by more than one entry in spec.containers"@,
            ),
        )
    } else if let Some(name) = first_repeated(volume_names(volumes), 0) {
        Some(
            (
                SpecProblem::DuplicateVolume,
                "volume name '"@ + name + "' is used by more than one entry in spec.volumes"@,
            ),
        )
    } else if forall|i: int| 0 <= i < containers.len() ==> !(#[trigger] containers[i]).essential {
        Some(
            (
                SpecProblem::NoEssentialContainer,
                "spec.containers has no essential container: every task needs at least one (essential defaults to true, so this means every container explicitly sets essential: false)"@,
            ),
        )
    } else {
        match each_container_problem(containers, volumes, 0) {
            Some(p) => Some(p),
            None => cycle_problem(containers),
        }
    }
}

/// The first thing that is wrong with a specification.
pub open spec fn first_problem(spec: Spec) -> Option<Problem> {
    match platform_problem(spec) {
        Some(p) => Some(p),
        None => match spec.containers {
            Some(containers) => containers_problem(containers@, spec.volumes@),
            None => None,
        },
    }
}

/// Looks for a name that occurs twice.
fn repeated<'a>(names: &Vec<&'a str>) -> (r: Option<&'a str>)
    ensures
        match r {
            None => first_repeated(text::slices(names@), 0) is None,
            Some(name) => first_repeated(text::slices(names@), 0) == Some(name@),
        },
{
    let ghost all = text::slices(names@);
    let mut seen: StrMap<bool> = StrMap::new();
    let mut i: usize = 0;
    while i < names.len()
        invariant
            i <= names@.len(),
            all == text::slices(names@),
            forall|k: Seq<char>| seen@.contains_key(k) <==> #[trigger] all.take(i as int).contains(k),
            first_repeated(all, 0) == first_repeated(all, i as int),
        decreases names@.len() - i,
    {
        let name = names[i];
        assert(all[i as int] == name@);
        if seen.contains_key(name) {
            return Some(name);
        }
        seen.insert(String::from_str(name), true);
        proof {
            assert forall|k: Seq<char>| seen@.contains_key(k) <==> #[trigger] all.take(
                i + 1,
            ).contains(k) by {
                let t = all.take(i as int);
                let u = all.take(i + 1);
                assert(u =~= t.push(name@));
                if u.contains(k) && k != name@ {
                    let j = u.index_of(k);
                    assert(t[j] == k);
                }
                if t.contains(k) {
                    let j = t.index_of(k);
                    assert(u[j] == k);
                }
                assert(u[i as int] == name@);
            }
        }
        i = i + 1;
    }
    None
}

/// Checks the capabilities that a container drops.
fn check_capabilities(cs: &ContainerSpec) -> (r: Option<Error<SpecProblem>>)
    ensures
        match r {
            None => capability_problem(*cs, 0) is None,
            Some(e) => capability_problem(*cs, 0) == Some(e@),
        },
{
    let drops = match &cs.linux_parameters {
        Some(lp) => &lp.capabilities_drop,
        None => {
            return None;
        },
    };
    let mut i: usize = 0;
    while i < drops.len()
        invariant
            cs.linux_parameters is Some,
            drops@ == cs.linux_parameters->0.capabilities_drop@,
            i <= drops@.len(),
            capability_problem(*cs, 0) == capability_problem(*cs, i as int),
        decreases drops@.len() - i,
    {
        let cap = drops[i].as_str();
        if !is_known_capability(cap) {
            let mut m = String::from_str("container '");
            m.append(cs.name.as_str());
            m.append("' drops unknown Linux capability '");
            m.append(cap);
            m.append(
                "': ECS accepts only the capability names in its task definition reference (ALL, SYS_ADMIN, NET_RAW, ...), and a typo here is rejected by AWS with an error that does not name the bad value",
            );
            return Some(problem(SpecProblem::UnknownCapability, m));
        }
        i = i + 1;
    }
    None
}

/// The place of a container.
fn place_of(containers: &Vec<ContainerSpec>, name: &str) -> (r: Option<usize>)
    ensures
        r is Some <==> container_names(containers@).contains(name@),
        r matches Some(i) ==> i < containers@.len() && containers@[i as int].name@ == name@,
{
    let mut i: usize = 0;
    while i < containers.len()
        invariant
            i <= containers@.len(),
            forall|j: int| 0 <= j < i ==> (#[trigger] containers@[j]).name@ != name@,
        decreases containers@.len() - i,
    {
        if same(containers[i].name.as_str(), name) {
            assert(container_names(containers@)[i as int] == name@);
            return Some(i);
        }
        i = i + 1;
    }
    proof {
        let names = container_names(containers@);
        if names.contains(name@) {
            let j = names.index_of(name@);
            assert(containers@[j].name@ == name@);
        }
    }
    None
}

/// Checks one dependency of a container.
fn check_dependency(
    containers: &Vec<ContainerSpec>,
    cs: &ContainerSpec,
    dep: &DependsOn,
) -> (r: Option<Error<SpecProblem>>)
    requires
        container_names(containers@).no_duplicates(),
    ensures
        match r {
            None => one_dependency_problem(containers@, *cs, *dep) is None,
            Some(e) => one_dependency_problem(containers@, *cs, *dep) == Some(e@),
        },
{
    let target = dep.container_name.as_str();
    let place = match place_of(containers, target) {
        Some(i) => i,
        None => {
            let mut m = String::from_str("container '");
            m.append(cs.name.as_str());
            m.append("' dependsOn references '");
            m.append(target);
            m.append("', which is not defined in spec.containers");
            return Some(problem(SpecProblem::UnknownDependency, m));
        },
    };
    if same(target, cs.name.as_str()) {
        let mut m = String::from_str("container '");
        m.append(cs.name.as_str());
        m.append("' has a dependsOn on itself");
        return Some(problem(SpecProblem::SelfDependency, m));
    }
    proof {
        assert forall|i: int|
            0 <= i < containers@.len() && (#[trigger] containers@[i]).name@ == target@ implies i
            == place by {
            let names = container_names(containers@);
            assert(names[i] == names[place as int]);
        }
        assert(is_essential(containers@, target@) == containers@[place as int].essential);
    }
    match dep.condition {
        DependsOnCondition::Start => None,
        DependsOnCondition::Complete | DependsOnCondition::Success => {
            if containers[place].essential {
                let mut m = String::from_str("container '");
                m.append(cs.name.as_str());
                m.append("' dependsOn '");
                m.append(target);
                m.append("' with condition ");
                m.append(dep.condition.as_str());
                m.append(", but '");
                m.append(target);
                m.append(
                    "' is essential: true. AWS rejects this combination (\"A dependency container with SUCCESS or COMPLETE condition cannot be an essential container\") -- set essential: false on '",
                );
                m.append(target);
                m.append("', or use condition: START");
                Some(problem(SpecProblem::EssentialDependency, m))
            } else {
                None
            }
        },
        DependsOnCondition::Healthy => {
            let mut m = String::from_str("container '");
            m.append(cs.name.as_str());
            m.append("' dependsOn '");
            m.append(target);
            m.append(
                "' uses condition HEALTHY, which is not yet supported: it requires a healthCheck on '",
            );
            m.append(target);
            m.append(
                "' that this spec has no way to configure, and would fail at RegisterTaskDefinition rather than here. Use START, SUCCESS, or COMPLETE instead",
            );
            Some(problem(SpecProblem::HealthyDependency, m))
        },
    }
}

/// Checks the dependencies of a container.
fn check_dependencies(containers: &Vec<ContainerSpec>, cs: &ContainerSpec) -> (r: Option<
    Error<SpecProblem>,
>)
    requires
        container_names(containers@).no_duplicates(),
    ensures
        match r {
            None => dependency_problem(containers@, *cs, 0) is None,
            Some(e) => dependency_problem(containers@, *cs, 0) == Some(e@),
        },
{
    let mut i: usize = 0;
    while i < cs.depends_on.len()
        invariant
            container_names(containers@).no_duplicates(),
            i <= cs.depends_on@.len(),
            dependency_problem(containers@, *cs, 0) == dependency_problem(
                containers@,
                *cs,
                i as int,
            ),
        decreases cs.depends_on@.len() - i,
    {
        match check_dependency(containers, cs, &cs.depends_on[i]) {
            Some(e) => {
                return Some(e);
            },
            None => {},
        }
        i = i + 1;
    }
    None
}

/// Whether a volume of this name is defined.
fn volume_defined(volumes: &Vec<VolumeSpec>, name: &str) -> (r: bool)
    ensures
        r == volume_names(volumes@).contains(name@),
{
    let mut i: usize = 0;
    while i < volumes.len()
        invariant
            i <= volumes@.len(),
            forall|j: int| 0 <= j < i ==> (#[trigger] volumes@[j]).name@ != name@,
        decreases volumes@.len() - i,
    {
        if same(volumes[i].name.as_str(), name) {
            assert(volume_names(volumes@)[i as int] == name@);
            return true;
        }
        i = i + 1;
    }
    proof {
        let names = volume_names(volumes@);
        if names.contains(name@) {
            let j = names.index_of(name@);
            assert(volumes@[j].name@ == name@);
        }
    }
    false
}

/// Checks the mounts of a container.
fn check_mounts(volumes: &Vec<VolumeSpec>, cs: &ContainerSpec) -> (r: Option<Error<SpecProblem>>)
    ensures
        match r {
            None => mount_problem(volumes@, *cs, 0) is None,
            Some(e) => mount_problem(volumes@, *cs, 0) == Some(e@),
        },
{
    let n = cs.mount_points.len();
    let mut i: usize = 0;
    while i < n
        invariant
            n == cs.mount_points.len_spec(),
            i <= n,
            mount_problem(volumes@, *cs, 0) == mount_problem(volumes@, *cs, i as int),
        decreases n - i,
    {
        let volume = cs.mount_points.value_at(i).source_volume();
        if !volume_defined(volumes, volume) {
            let mut m = String::from_str("container '");
            m.append(cs.name.as_str());
            m.append("' mounts '");
            m.append(volume);
            m.append("' at '");
            m.append(cs.mount_points.key_at(i));
            m.append("', but '");
            m.append(volume);
            m.append("' is not defined in spec.volumes");
            return Some(problem(SpecProblem::UnknownVolume, m));
        }
        i = i + 1;
    }
    None
}

/// Checks each container.
fn check_each(containers: &Vec<ContainerSpec>, volumes: &Vec<VolumeSpec>) -> (r: Option<
    Error<SpecProblem>,
>)
    requires
        container_names(containers@).no_duplicates(),
    ensures
        match r {
            None => each_container_problem(containers@, volumes@, 0) is None,
            Some(e) => each_container_problem(containers@, volumes@, 0) == Some(e@),
        },
{
    let mut i: usize = 0;
    while i < containers.len()
        invariant
            container_names(containers@).no_duplicates(),
            i <= containers@.len(),
            each_container_problem(containers@, volumes@, 0) == each_container_problem(
                containers@,
                volumes@,
                i as int,
            ),
        decreases containers@.len() - i,
    {
        let cs = &containers[i];
        match check_capabilities(cs) {
            Some(e) => {
                return Some(e);
            },
            None => {},
        }
        match check_dependencies(containers, cs) {
            Some(e) => {
                return Some(e);
            },
            None => {},
        }
        match check_mounts(volumes, cs) {
            Some(e) => {
                return Some(e);
            },
            None => {},
        }
        i = i + 1;
    }
    None
}

/// Without a repeated name, the names are distinct, and the other way round.
pub proof fn lemma_first_repeated(names: Seq<Seq<char>>, i: int)
    requires
        0 <= i <= names.len(),
        names.take(i).no_duplicates(),
    ensures
        first_repeated(names, i) is None <==> names.no_duplicates(),
    decreases names.len() - i,
{
    if i == names.len() {
        assert(names.take(i) =~= names);
    } else if names.take(i).contains(names[i]) {
        let j = names.take(i).index_of(names[i]);
        assert(names[j] == names[i]);
        assert(!names.no_duplicates());
    } else {
        let t = names.take(i + 1);
        assert forall|a: int, b: int| 0 <= a < t.len() && 0 <= b < t.len() && a != b implies t[a]
            != t[b] by {
            if a < i && b < i {
                assert(names.take(i)[a] != names.take(i)[b]);
            } else if a < i {
                assert(names.take(i)[a] == t[a]);
            } else {
                assert(names.take(i)[b] == t[b]);
            }
        }
        lemma_first_repeated(names, i + 1);
    }
}

/// Where no dependency has a problem, each one names a container.
proof fn lemma_dependencies_known(containers: Seq<ContainerSpec>, cs: ContainerSpec, i: int)
    requires
        0 <= i <= cs.depends_on@.len(),
        dependency_problem(containers, cs, i) is None,
    ensures
        forall|k: int|
            i <= k < cs.depends_on@.len() ==> one_dependency_problem(
                containers,
                cs,
                #[trigger] cs.depends_on@[k],
            ) is None,
    decreases cs.depends_on@.len() - i,
{
    if i < cs.depends_on@.len() {
        lemma_dependencies_known(containers, cs, i + 1);
    }
}

/// Where the containers have no problem, no container has one.
pub proof fn lemma_each_sound(containers: Seq<ContainerSpec>, volumes: Seq<VolumeSpec>, i: int)
    requires
        0 <= i <= containers.len(),
        each_container_problem(containers, volumes, i) is None,
    ensures
        forall|k: int|
            i <= k < containers.len() ==> one_container_problem(
                containers,
                volumes,
                #[trigger] containers[k],
            ) is None,
    decreases containers.len() - i,
{
    if i < containers.len() {
        lemma_each_sound(containers, volumes, i + 1);
    }
}

/// The dependency graph of containers whose dependencies are all known is
/// closed.
proof fn lemma_graph_closed(containers: Seq<ContainerSpec>, volumes: Seq<VolumeSpec>)
    requires
        containers.len() <= usize::MAX,
        each_container_problem(containers, volumes, 0) is None,
    ensures
        depgraph::closed_graph(dependency_graph(containers)),
        forall|i: int, k: int|
            0 <= i < containers.len() && 0 <= k < containers[i].depends_on@.len()
                ==> container_names(containers).contains(
                (#[trigger] containers[i].depends_on@[k]).container_name@,
            ),
{
    let g = dependency_graph(containers);
    lemma_each_sound(containers, volumes, 0);
    assert forall|i: int, k: int|
        0 <= i < containers.len() && 0 <= k
            < containers[i].depends_on@.len() implies container_names(containers).contains(
        (#[trigger] containers[i].depends_on@[k]).container_name@,
    ) by {
        assert(one_container_problem(containers, volumes, containers[i]) is None);
        lemma_dependencies_known(containers, containers[i], 0);
        assert(one_dependency_problem(
            containers,
            containers[i],
            containers[i].depends_on@[k],
        ) is None);
    }
    assert forall|i: int, k: int| 0 <= i < g.len() && 0 <= k < g[i].len() implies #[trigger] g[i][k]
        < g.len() by {
        let dep = containers[i].depends_on@[k];
        assert(container_names(containers).contains(dep.container_name@));
    }
}

/// At most one node comes first by name.
proof fn lemma_first_by_name(names: Seq<Seq<char>>, g: Seq<Seq<usize>>, n: usize)
    requires
        first_by_name(names, g, n),
    ensures
        named_cycle(names, g) == Some(depgraph::cycle_from(g, seq![n])),
{
    let c = choose|c: usize| first_by_name(names, g, c);
    assert(first_by_name(names, g, c));
    if c != n {
        assert(order::precedes(names[c as int], names[n as int]));
        assert(order::precedes(names[n as int], names[c as int]));
        order::lemma_asymmetric(names[c as int], names[n as int]);
    }
}

/// The places of the containers, in the order of their names.
fn name_order(containers: &Vec<ContainerSpec>) -> (r: Vec<usize>)
    requires
        container_names(containers@).no_duplicates(),
    ensures
        forall|i: int| 0 <= i < r@.len() ==> #[trigger] r@[i] < containers@.len(),
        forall|n: usize| n < containers@.len() ==> #[trigger] r@.contains(n),
        forall|i: int, j: int|
            0 <= i < j < r@.len() ==> order::precedes(
                container_names(containers@)[#[trigger] r@[i] as int],
                container_names(containers@)[#[trigger] r@[j] as int],
            ),
{
    let ghost names = container_names(containers@);
    let mut places: StrMap<usize> = StrMap::new();
    let mut i: usize = 0;
    while i < containers.len()
        invariant
            names == container_names(containers@),
            names.no_duplicates(),
            i <= containers@.len(),
            forall|j: int|
                0 <= j < i ==> places@.contains_key(#[trigger] names[j]) && places@[names[j]] == j,
            forall|k: Seq<char>| #[trigger]
                places@.contains_key(k) ==> places@[k] < i && names[places@[k] as int] == k,
        decreases containers@.len() - i,
    {
        places.insert(containers[i].name.clone(), i);
        proof {
            assert(names[i as int] == containers@[i as int].name@);
            assert forall|j: int| 0 <= j < i + 1 implies places@.contains_key(
                #[trigger] names[j],
            ) && places@[names[j]] == j by {
                if j < i {
                    assert(names[j] != names[i as int]);
                }
            }
        }
        i = i + 1;
    }
    let n = places.len();
    let mut out: Vec<usize> = Vec::new();
    let mut k: usize = 0;
    while k < n
        invariant
            n == places.len_spec(),
            places.ordered(),
            k <= n,
            out@.len() == k,
            forall|j: int| 0 <= j < k ==> #[trigger] out@[j] == places.value(j),
        decreases n - k,
    {
        out.push(*places.value_at(k));
        k = k + 1;
    }
    proof {
        assert forall|j: int| 0 <= j < out@.len() implies #[trigger] out@[j] < containers@.len()
            && names[out@[j] as int] == places.key(j) by {
            assert(places@.contains_key(places.key(j)));
        }
        assert forall|m: usize| m < containers@.len() implies #[trigger] out@.contains(m) by {
            assert(places@.contains_key(names[m as int]));
            assert(places.has(names[m as int]));
            let j = choose|j: int|
                0 <= j < places.len_spec() && #[trigger] places.key(j) == names[m as int];
            assert(places@[places.key(j)] == places.value(j));
            assert(out@[j] == m);
        }
        assert forall|a: int, b: int| 0 <= a < b < out@.len() implies order::precedes(
            names[#[trigger] out@[a] as int],
            names[#[trigger] out@[b] as int],
        ) by {
            assert(order::precedes(places.key(a), places.key(b)));
        }
    }
    out
}

/// The dependency graph.
fn graph_of(containers: &Vec<ContainerSpec>) -> (r: Vec<Vec<usize>>)
    requires
        container_names(containers@).no_duplicates(),
        forall|i: int, k: int|
            0 <= i < containers@.len() && 0 <= k < containers@[i].depends_on@.len()
                ==> container_names(containers@).contains(
                (#[trigger] containers@[i].depends_on@[k]).container_name@,
            ),
    ensures
        depgraph::edges(r@) == dependency_graph(containers@),
{
    let ghost names = container_names(containers@);
    let ghost g = dependency_graph(containers@);
    let mut out: Vec<Vec<usize>> = Vec::new();
    let mut i: usize = 0;
    while i < containers.len()
        invariant
            names == container_names(containers@),
            names.no_duplicates(),
            g == dependency_graph(containers@),
            forall|i: int, k: int|
                0 <= i < containers@.len() && 0 <= k < containers@[i].depends_on@.len()
                    ==> names.contains((#[trigger] containers@[i].depends_on@[k]).container_name@),
            i <= containers@.len(),
            out@.len() == i,
            forall|j: int| 0 <= j < i ==> (#[trigger] out@[j])@ == g[j],
        decreases containers@.len() - i,
    {
        let deps = &containers[i].depends_on;
        let mut row: Vec<usize> = Vec::new();
        let mut k: usize = 0;
        while k < deps.len()
            invariant
                names == container_names(containers@),
                names.no_duplicates(),
                g == dependency_graph(containers@),
                i < containers@.len(),
                deps@ == containers@[i as int].depends_on@,
                forall|k: int|
                    0 <= k < deps@.len() ==> names.contains(
                        (#[trigger] deps@[k]).container_name@,
                    ),
                k <= deps@.len(),
                row@.len() == k,
                forall|j: int| 0 <= j < k ==> #[trigger] row@[j] == g[i as int][j],
            decreases deps@.len() - k,
        {
            let target = deps[k].container_name.as_str();
            assert(names.contains(deps@[k as int].container_name@));
            match place_of(containers, target) {
                Some(p) => {
                    proof {
                        let q = names.index_of(target@);
                        assert(names[q] == names[p as int]);
                    }
                    row.push(p);
                },
                None => {},
            }
            k = k + 1;
        }
        assert(row@ =~= g[i as int]);
        out.push(row);
        i = i + 1;
    }
    assert(depgraph::edges(out@) =~= g);
    out
}

/// Checks that the containers do not wait for each other in a circle.
fn check_cycles(containers: &Vec<ContainerSpec>, Ghost(volumes): Ghost<Seq<VolumeSpec>>) -> (r:
    Option<Error<SpecProblem>>)
    requires
        container_names(containers@).no_duplicates(),
        each_container_problem(containers@, volumes, 0) is None,
    ensures
        match r {
            None => cycle_problem(containers@) is None,
            Some(e) => cycle_problem(containers@) == Some(e@),
        },
{
    let ghost names = container_names(containers@);
    let ghost g = dependency_graph(containers@);
    let total = containers.len();
    assert(containers@.len() == total);
    proof {
        lemma_graph_closed(containers@, volumes);
    }
    let graph = graph_of(containers);
    let roots = name_order(containers);
    assert(depgraph::edges(graph@).len() == graph@.len());
    let found = depgraph::find_cycle(&graph, &roots);
    proof {
        depgraph::lemma_first_reaching(g, roots@, 0);
        let i = depgraph::first_reaching(g, roots@, 0);
        if i < roots@.len() {
            let root = roots@[i];
            assert forall|m: usize|
                m < names.len() && m != root && #[trigger] depgraph::reaches_cycle(
                    g,
                    m,
                ) implies order::precedes(names[root as int], names[m as int]) by {
                assert(roots@.contains(m));
                let j = roots@.index_of(m);
                assert(roots@[j] == m);
                assert(j > i);
            }
            assert(first_by_name(names, g, root));
            lemma_first_by_name(names, g, root);
        } else {
            assert forall|m: usize| m < names.len() implies !#[trigger] depgraph::reaches_cycle(
                g,
                m,
            ) by {
                assert(roots@.contains(m));
                let j = roots@.index_of(m);
                assert(roots@[j] == m);
            }
        }
    }
    match found {
        None => None,
        Some(cycle) => {
            proof {
                let i = depgraph::first_reaching(g, roots@, 0);
                let path = seq![roots@[i]];
                assert(depgraph::is_walk(g, path));
                depgraph::lemma_cycle_from(g, path);
            }
            let mut list: Vec<String> = Vec::new();
            let mut k: usize = 0;
            while k < cycle.len()
                invariant
                    names == container_names(containers@),
                    g.len() == containers@.len(),
                    depgraph::is_walk(g, cycle@),
                    k <= cycle@.len(),
                    text::texts(list@) == cycle_names(names, cycle@).take(k as int),
                decreases cycle@.len() - k,
            {
                let ghost before = text::texts(list@);
                list.push(containers[cycle[k]].name.clone());
                assert(text::texts(list@) =~= before.push(names[cycle@[k as int] as int]));
                assert(cycle_names(names, cycle@).take(k + 1) =~= cycle_names(names, cycle@).take(
                    k as int,
                ).push(cycle_names(names, cycle@)[k as int]));
                k = k + 1;
            }
            assert(cycle_names(names, cycle@).take(cycle@.len() as int) =~= cycle_names(
                names,
                cycle@,
            ));
            let mut m = String::from_str("dependsOn cycle in spec.containers: ");
            m.append(text::join_all(&list, " -> ").as_str());
            m.append(
                ". ECS cannot start any container in a cycle, and rejects this at RegisterTaskDefinition",
            );
            Some(problem(SpecProblem::DependencyCycle, m))
        },
    }
}

/// Checks the containers and volumes of a service.
fn check_containers(containers: &Vec<ContainerSpec>, volumes: &Vec<VolumeSpec>) -> (r: Option<
    Error<SpecProblem>,
>)
    ensures
        match r {
            None => containers_problem(containers@, volumes@) is None,
            Some(e) => containers_problem(containers@, volumes@) == Some(e@),
        },
{
    if containers.len() == 0 {
        return Some(
            problem(
                SpecProblem::NoContainers,
                String::from_str(
                    "spec.containers is present but empty: specify at least one container, or omit spec.containers to use single-container mode",
                ),
            ),
        );
    }
    let mut names: Vec<&str> = Vec::new();
    let mut essential = false;
    let mut i: usize = 0;
    while i < containers.len()
        invariant
            i <= containers@.len(),
            names@.len() == i,
            forall|j: int| 0 <= j < i ==> (#[trigger] names@[j])@ == containers@[j].name@,
            essential <==> exists|j: int| 0 <= j < i && (#[trigger] containers@[j]).essential,
        decreases containers@.len() - i,
    {
        names.push(containers[i].name.as_str());
        if containers[i].essential {
            essential = true;
            assert(containers@[i as int].essential);
        }
        i = i + 1;
    }
    assert(text::slices(names@) =~= container_names(containers@));
    proof {
        lemma_first_repeated(container_names(containers@), 0);
    }
    match repeated(&names) {
        Some(name) => {
            let mut m = String::from_str("container name '");
            m.append(name);
            m.append("' is used by more than one entry in spec.containers");
            return Some(problem(SpecProblem::DuplicateContainer, m));
        },
        None => {},
    }
    let mut volume_list: Vec<&str> = Vec::new();
    let mut k: usize = 0;
    while k < volumes.len()
        invariant
            k <= volumes@.len(),
            volume_list@.len() == k,
            forall|j: int| 0 <= j < k ==> (#[trigger] volume_list@[j])@ == volumes@[j].name@,
        decreases volumes@.len() - k,
    {
        volume_list.push(volumes[k].name.as_str());
        k = k + 1;
    }
    assert(text::slices(volume_list@) =~= volume_names(volumes@));
    match repeated(&volume_list) {
        Some(name) => {
            let mut m = String::from_str("volume name '");
            m.append(name);
            m.append("' is used by more than one entry in spec.volumes");
            return Some(problem(SpecProblem::DuplicateVolume, m));
        },
        None => {},
    }
    if !essential {
        return Some(
            problem(
                SpecProblem::NoEssentialContainer,
                String::from_str(
                    "spec.containers has no essential container: every task needs at least one (essential defaults to true, so this means every container explicitly sets essential: false)",
                ),
            ),
        );
    }
    match check_each(containers, volumes) {
        Some(e) => Some(e),
        None => check_cycles(containers, Ghost(volumes@)),
    }
}

impl ServiceSpec {
    /// Checks that a service can be deployed, and reports the first thing that
    /// stands against it.
    pub fn validate(&self) -> (r: Result<(), Error<SpecProblem>>)
        ensures
            match r {
                Ok(()) => first_problem(self.spec) is None,
                Err(e) => first_problem(self.spec) == Some(e@),
            },
    {
        match check_platform(&self.spec) {
            Some(e) => {
                return Err(e);
            },
            None => {},
        }
        match &self.spec.containers {
            Some(containers) => match check_containers(containers, &self.spec.volumes) {
                Some(e) => Err(e),
                None => Ok(()),
            },
            None => Ok(()),
        }
    }
}

/// Whether Fargate offers the size of a service.
pub open spec fn size_offered(spec: Spec) -> bool {
    let cpu = number::parse_unsigned_spec(spec.cpu@, u32::MAX as nat);
    let memory = number::parse_unsigned_spec(spec.memory@, u32::MAX as nat);
    cpu is Some && memory is Some && fargate_memories(cpu->0 as int).contains(memory->0 as u32)
}

/// Whether a container can wait for another one as it says.
pub open spec fn dependency_valid(
    containers: Seq<ContainerSpec>,
    cs: ContainerSpec,
    dep: DependsOn,
) -> bool {
    &&& container_names(containers).contains(dep.container_name@)
    &&& dep.container_name@ != cs.name@
    &&& dep.condition != DependsOnCondition::Healthy
    &&& dep.condition != DependsOnCondition::Start ==> !is_essential(
        containers,
        dep.container_name@,
    )
}

/// Whether a container fits its task: ECS knows the capabilities that it drops,
/// it can wait for what it waits for, and the volumes that it mounts exist.
pub open spec fn container_valid(
    containers: Seq<ContainerSpec>,
    volumes: Seq<VolumeSpec>,
    cs: ContainerSpec,
) -> bool {
    &&& forall|i: int|
        cs.linux_parameters is Some && 0 <= i < cs.linux_parameters->0.capabilities_drop@.len()
            ==> crate::apply::known_capabilities().contains(
            (#[trigger] cs.linux_parameters->0.capabilities_drop@[i])@,
        )
    &&& forall|i: int|
        0 <= i < cs.depends_on@.len() ==> dependency_valid(
            containers,
            cs,
            #[trigger] cs.depends_on@[i],
        )
    &&& forall|i: int|
        0 <= i < cs.mount_points.len_spec() ==> volume_names(volumes).contains(
            (#[trigger] cs.mount_points.value(i)).volume(),
        )
}

/// Whether a list of containers and volumes makes a task that ECS can start.
pub open spec fn containers_valid(containers: Seq<ContainerSpec>, volumes: Seq<VolumeSpec>) -> bool {
    &&& containers.len() > 0
    &&& container_names(containers).no_duplicates()
    &&& volume_names(volumes).no_duplicates()
    &&& exists|i: int| 0 <= i < containers.len() && (#[trigger] containers[i]).essential
    &&& forall|i: int|
        0 <= i < containers.len() ==> container_valid(containers, volumes, #[trigger] containers[i])
    &&& forall|c: Seq<usize>| !depgraph::is_cycle(dependency_graph(containers), c)
}

/// Whether a service can be deployed.
pub open spec fn valid(spec: Spec) -> bool {
    &&& spec.arch@ == "X86_64"@ || spec.arch@ == "ARM64"@
    &&& spec.capacity@ == "FARGATE"@ || spec.capacity@ == "FARGATE_SPOT"@
    &&& size_offered(spec)
    &&& spec.desired_count >= 0
    &&& spec.containers matches Some(containers) ==> containers_valid(
        containers@,
        spec.volumes@,
    )
}

proof fn lemma_capabilities_valid(cs: ContainerSpec, i: int)
    requires
        0 <= i,
    ensures
        capability_problem(cs, i) is None <==> forall|k: int|
            cs.linux_parameters is Some && i <= k
                < cs.linux_parameters->0.capabilities_drop@.len()
                ==> crate::apply::known_capabilities().contains(
                (#[trigger] cs.linux_parameters->0.capabilities_drop@[k])@,
            ),
    decreases cs.linux_parameters->0.capabilities_drop@.len() - i,
{
    let drops = cs.linux_parameters->0.capabilities_drop@;
    if cs.linux_parameters is Some && i < drops.len() {
        lemma_capabilities_valid(cs, i + 1);
        assert(crate::apply::known_capabilities().contains(drops[i]@)
            || !crate::apply::known_capabilities().contains(drops[i]@));
    }
}

proof fn lemma_dependencies_valid(containers: Seq<ContainerSpec>, cs: ContainerSpec, i: int)
    requires
        0 <= i,
    ensures
        dependency_problem(containers, cs, i) is None <==> forall|k: int|
            i <= k < cs.depends_on@.len() ==> dependency_valid(
                containers,
                cs,
                #[trigger] cs.depends_on@[k],
            ),
    decreases cs.depends_on@.len() - i,
{
    if i < cs.depends_on@.len() {
        lemma_dependencies_valid(containers, cs, i + 1);
        let dep = cs.depends_on@[i];
        assert(one_dependency_problem(containers, cs, dep) is None <==> dependency_valid(
            containers,
            cs,
            dep,
        ));
    }
}

proof fn lemma_mounts_valid(volumes: Seq<VolumeSpec>, cs: ContainerSpec, i: int)
    requires
        0 <= i,
    ensures
        mount_problem(volumes, cs, i) is None <==> forall|k: int|
            i <= k < cs.mount_points.len_spec() ==> volume_names(volumes).contains(
                (#[trigger] cs.mount_points.value(k)).volume(),
            ),
    decreases cs.mount_points.len_spec() - i,
{
    if i < cs.mount_points.len_spec() {
        lemma_mounts_valid(volumes, cs, i + 1);
        let volume = cs.mount_points.value(i).volume();
        assert(volume_names(volumes).contains(volume) || !volume_names(volumes).contains(volume));
    }
}

proof fn lemma_each_valid(containers: Seq<ContainerSpec>, volumes: Seq<VolumeSpec>, i: int)
    requires
        0 <= i,
    ensures
        each_container_problem(containers, volumes, i) is None <==> forall|k: int|
            i <= k < containers.len() ==> container_valid(
                containers,
                volumes,
                #[trigger] containers[k],
            ),
    decreases containers.len() - i,
{
    if i < containers.len() {
        let cs = containers[i];
        lemma_capabilities_valid(cs, 0);
        lemma_dependencies_valid(containers, cs, 0);
        lemma_mounts_valid(volumes, cs, 0);
        assert(one_container_problem(containers, volumes, cs) is None <==> container_valid(
            containers,
            volumes,
            cs,
        ));
        lemma_each_valid(containers, volumes, i + 1);
    }
}

/// A specification is accepted exactly if it describes a service that can be
/// deployed: known names and sizes, containers that differ in name, one of them
/// essential, dependencies and mounts that lead somewhere, and no circle of
/// containers that wait for each other.
pub proof fn lemma_accepts_exactly_valid(spec: Spec)
    requires
        spec.containers matches Some(containers) ==> containers@.len() <= usize::MAX,
    ensures
        first_problem(spec) is None <==> valid(spec),
{
    assert(platform_problem(spec) is None <==> {
        &&& spec.arch@ == "X86_64"@ || spec.arch@ == "ARM64"@
        &&& spec.capacity@ == "FARGATE"@ || spec.capacity@ == "FARGATE_SPOT"@
        &&& size_offered(spec)
        &&& spec.desired_count >= 0
    });
    match spec.containers {
        Some(list) => {
            let containers = list@;
            let volumes = spec.volumes@;
            let names = container_names(containers);
            let g = dependency_graph(containers);
            lemma_first_repeated(names, 0);
            lemma_first_repeated(volume_names(volumes), 0);
            lemma_each_valid(containers, volumes, 0);
            if each_container_problem(containers, volumes, 0) is None {
                lemma_graph_closed(containers, volumes);
                if exists|c: Seq<usize>| depgraph::is_cycle(g, c) {
                    let c = choose|c: Seq<usize>| depgraph::is_cycle(g, c);
                    assert(c[0] == c[c.len() - 1]);
                    assert(!c.no_duplicates());
                    assert(depgraph::reaches_cycle(g, c[0]));
                    assert(c[0] < names.len());
                    assert(cycle_problem(containers) is Some);
                }
                if cycle_problem(containers) is Some {
                    let n = choose|n: usize| n < names.len() && depgraph::reaches_cycle(g, n);
                    let path = seq![n];
                    assert(depgraph::is_walk(g, path));
                    depgraph::lemma_cycle_from(g, path);
                    assert(depgraph::is_cycle(g, depgraph::cycle_from(g, path)));
                }
            }
        },
        None => {},
    }
}

/// Whether two lists hold the same, each as often, in whatever order.
pub open spec fn reordered<T>(a: Seq<T>, b: Seq<T>) -> bool {
    a.to_multiset() == b.to_multiset()
}

/// Whether two specifications differ at most in the order of their containers
/// and volumes, as far as a check looks at them.
pub open spec fn same_but_for_order(a: Spec, b: Spec) -> bool {
    &&& a.arch@ == b.arch@
    &&& a.capacity@ == b.capacity@
    &&& a.cpu@ == b.cpu@
    &&& a.memory@ == b.memory@
    &&& a.desired_count == b.desired_count
    &&& reordered(a.volumes@, b.volumes@)
    &&& match (a.containers, b.containers) {
        (Some(x), Some(y)) => reordered(x@, y@),
        (None, None) => true,
        _ => false,
    }
}

/// Where each item of a list stands in the list before it was reordered.
proof fn lemma_places<T>(a: Seq<T>, b: Seq<T>) -> (p: Seq<int>)
    requires
        reordered(a, b),
    ensures
        a.len() == b.len(),
        p.len() == b.len(),
        p.no_duplicates(),
        forall|i: int| 0 <= i < p.len() ==> 0 <= #[trigger] p[i] < a.len() && b[i] == a[p[i]],
    decreases b.len(),
{
    broadcast use vstd::seq_lib::group_to_multiset_ensures;

    assert(a.len() == a.to_multiset().len());
    assert(b.len() == b.to_multiset().len());
    if b.len() == 0 {
        Seq::empty()
    } else {
        let x = b.last();
        let n = b.len() - 1;
        assert(b[n] == x);
        assert(b.contains(x));
        assert(b.to_multiset().count(x) > 0);
        assert(a.to_multiset().count(x) > 0);
        assert(a.contains(x));
        let j = a.index_of(x);
        let shorter = a.remove(j);
        assert(b.drop_last() =~= b.remove(n));
        assert(reordered(shorter, b.drop_last()));
        let q = lemma_places(shorter, b.drop_last());
        let moved = Seq::new(
            q.len(),
            |i: int|
                if q[i] < j {
                    q[i]
                } else {
                    q[i] + 1
                },
        );
        let p = moved.push(j);
        assert forall|i: int| 0 <= i < p.len() implies 0 <= #[trigger] p[i] < a.len() && b[i]
            == a[p[i]] by {
            if i < n {
                assert(0 <= q[i] < shorter.len());
                assert(b[i] == b.drop_last()[i]);
            }
        }
        assert forall|i: int, k: int|
            0 <= i < p.len() && 0 <= k < p.len() && i != k implies p[i] != p[k] by {
            if i < n && k < n {
                assert(q[i] != q[k]);
            }
        }
        p
    }
}

proof fn lemma_reordered_contains<T>(a: Seq<T>, b: Seq<T>, x: T)
    requires
        reordered(a, b),
    ensures
        a.contains(x) == b.contains(x),
{
    broadcast use vstd::seq_lib::group_to_multiset_ensures;

    assert(a.to_multiset().count(x) == b.to_multiset().count(x));
}

proof fn lemma_reordered_names(
    a: Seq<ContainerSpec>,
    b: Seq<ContainerSpec>,
    va: Seq<VolumeSpec>,
    vb: Seq<VolumeSpec>,
)
    requires
        reordered(a, b),
        reordered(va, vb),
    ensures
        forall|x: Seq<char>|
            #[trigger] container_names(a).contains(x) ==> container_names(b).contains(x),
        forall|x: Seq<char>|
            #[trigger] volume_names(va).contains(x) ==> volume_names(vb).contains(x),
        forall|x: Seq<char>| #[trigger] is_essential(a, x) ==> is_essential(b, x),
        container_names(a).no_duplicates() ==> container_names(b).no_duplicates(),
        volume_names(va).no_duplicates() ==> volume_names(vb).no_duplicates(),
{
    assert forall|x: Seq<char>| #[trigger] container_names(a).contains(x) implies container_names(
        b,
    ).contains(x) by {
        let i = container_names(a).index_of(x);
        assert(a.contains(a[i]));
        lemma_reordered_contains(a, b, a[i]);
        let k = b.index_of(a[i]);
        assert(container_names(b)[k] == x);
    }
    assert forall|x: Seq<char>| #[trigger] volume_names(va).contains(x) implies volume_names(
        vb,
    ).contains(x) by {
        let i = volume_names(va).index_of(x);
        assert(va.contains(va[i]));
        lemma_reordered_contains(va, vb, va[i]);
        let k = vb.index_of(va[i]);
        assert(volume_names(vb)[k] == x);
    }
    assert forall|x: Seq<char>| #[trigger] is_essential(a, x) implies is_essential(b, x) by {
        let i = choose|i: int|
            0 <= i < a.len() && (#[trigger] a[i]).name@ == x && a[i].essential;
        assert(a.contains(a[i]));
        lemma_reordered_contains(a, b, a[i]);
        let k = b.index_of(a[i]);
        assert(b[k].name@ == x && b[k].essential);
    }
    let p = lemma_places(a, b);
    let pv = lemma_places(va, vb);
    if container_names(a).no_duplicates() {
        let names = container_names(b);
        assert forall|i: int, k: int|
            0 <= i < names.len() && 0 <= k < names.len() && i != k implies names[i] != names[k] by {
            assert(p[i] != p[k]);
            assert(names[i] == container_names(a)[p[i]]);
            assert(names[k] == container_names(a)[p[k]]);
        }
    }
    if volume_names(va).no_duplicates() {
        let names = volume_names(vb);
        assert forall|i: int, k: int|
            0 <= i < names.len() && 0 <= k < names.len() && i != k implies names[i] != names[k] by {
            assert(pv[i] != pv[k]);
            assert(names[i] == volume_names(va)[pv[i]]);
            assert(names[k] == volume_names(va)[pv[k]]);
        }
    }
}

/// A cycle among reordered containers is one among the containers in their first
/// order.
proof fn lemma_reordered_cycle(
    a: Seq<ContainerSpec>,
    va: Seq<VolumeSpec>,
    b: Seq<ContainerSpec>,
    c: Seq<usize>,
)
    requires
        containers_valid(a, va),
        reordered(a, b),
        a.len() <= usize::MAX,
        depgraph::is_cycle(dependency_graph(b), c),
    ensures
        exists|d: Seq<usize>| depgraph::is_cycle(dependency_graph(a), d),
{
    let ga = dependency_graph(a);
    let gb = dependency_graph(b);
    let p = lemma_places(a, b);
    lemma_reordered_names(a, b, va, va);
    let d = Seq::new(c.len(), |i: int| p[c[i] as int] as usize);
    assert forall|i: int| 0 <= i < d.len() implies #[trigger] d[i] < ga.len() && d[i]
        == p[c[i] as int] by {
        assert(c[i] < gb.len());
        assert(0 <= p[c[i] as int] < a.len());
    }
    assert forall|i: int| 0 < i < d.len() implies ga[d[i - 1] as int].contains(#[trigger] d[i]) by {
        let n = c[i - 1] as int;
        assert(gb[n].contains(c[i]));
        assert(c[i - 1] < gb.len());
        assert(d[i - 1] == p[n]);
        let k = gb[n].index_of(c[i]);
        let x = b[n].depends_on@[k].container_name@;
        assert(b[n] == a[p[n]]);
        assert(container_valid(a, va, a[p[n]]));
        assert(dependency_valid(a, a[p[n]], a[p[n]].depends_on@[k]));
        assert(container_names(a).contains(x));
        assert(container_names(b).contains(x));
        let m = container_names(b).index_of(x);
        assert(gb[n][k] == m as usize);
        assert(c[i] == m);
        assert(b[m].name@ == x);
        assert(0 <= p[m] < a.len() && b[m] == a[p[m]]);
        assert(container_names(a)[p[m]] == x);
        let o = container_names(a).index_of(x);
        assert(container_names(a)[o] == x);
        assert(o == p[m]);
        assert(ga[p[n]][k] == o as usize);
        assert(ga[p[n]][k] == d[i]);
    }
    let front = d.drop_last();
    assert forall|i: int, k: int|
        0 <= i < front.len() && 0 <= k < front.len() && i != k implies front[i] != front[k] by {
        assert(c.drop_last()[i] != c.drop_last()[k]);
        assert(c[i] < gb.len() && c[k] < gb.len());
        assert(p[c[i] as int] != p[c[k] as int]);
        assert(front[i] == d[i] && front[k] == d[k]);
    }
    assert(depgraph::is_cycle(ga, d));
}

proof fn lemma_reordered_valid(
    a: Seq<ContainerSpec>,
    va: Seq<VolumeSpec>,
    b: Seq<ContainerSpec>,
    vb: Seq<VolumeSpec>,
)
    requires
        containers_valid(a, va),
        reordered(a, b),
        reordered(va, vb),
        a.len() <= usize::MAX,
    ensures
        containers_valid(b, vb),
{
    lemma_reordered_names(a, b, va, vb);
    lemma_reordered_names(b, a, vb, va);
    let p = lemma_places(a, b);
    let e = choose|i: int| 0 <= i < a.len() && (#[trigger] a[i]).essential;
    assert(is_essential(a, a[e].name@));
    assert(is_essential(b, a[e].name@));
    assert forall|i: int| 0 <= i < b.len() implies container_valid(b, vb, #[trigger] b[i]) by {
        let cs = b[i];
        assert(cs == a[p[i]]);
        assert(container_valid(a, va, a[p[i]]));
        assert forall|k: int| 0 <= k < cs.depends_on@.len() implies dependency_valid(
            b,
            cs,
            #[trigger] cs.depends_on@[k],
        ) by {
            let dep = cs.depends_on@[k];
            assert(dependency_valid(a, cs, dep));
            assert(container_names(a).contains(dep.container_name@));
            if is_essential(b, dep.container_name@) {
                assert(is_essential(a, dep.container_name@));
            }
        }
        assert forall|k: int| 0 <= k < cs.mount_points.len_spec() implies volume_names(
            vb,
        ).contains((#[trigger] cs.mount_points.value(k)).volume()) by {
            assert(volume_names(va).contains(cs.mount_points.value(k).volume()));
        }
    }
    assert forall|c: Seq<usize>| !depgraph::is_cycle(dependency_graph(b), c) by {
        if depgraph::is_cycle(dependency_graph(b), c) {
            lemma_reordered_cycle(a, va, b, c);
        }
    }
}

/// The order of the containers and of the volumes plays no part in whether a
/// specification is accepted.
pub proof fn lemma_order_plays_no_part(a: Spec, b: Spec)
    requires
        same_but_for_order(a, b),
        a.containers matches Some(containers) ==> containers@.len() <= usize::MAX,
    ensures
        valid(a) == valid(b),
        first_problem(a) is None <==> first_problem(b) is None,
{
    match (a.containers, b.containers) {
        (Some(x), Some(y)) => {
            let _ = lemma_places(x@, y@);
            if containers_valid(x@, a.volumes@) {
                lemma_reordered_valid(x@, a.volumes@, y@, b.volumes@);
            }
            if containers_valid(y@, b.volumes@) {
                lemma_reordered_valid(y@, b.volumes@, x@, a.volumes@);
            }
        },
        _ => {},
    }
    lemma_accepts_exactly_valid(a);
    lemma_accepts_exactly_valid(b);
}

/// Whether a list of places holds all containers, each after those that it waits
/// for.
pub open spec fn can_start_in(containers: Seq<ContainerSpec>, places: Seq<usize>) -> bool {
    &&& places.len() == containers.len()
    &&& places.no_duplicates()
    &&& forall|i: int| 0 <= i < places.len() ==> #[trigger] places[i] < containers.len()
    &&& forall|i: int, k: int|
        0 <= i < places.len() && 0 <= k < containers[places[i] as int].depends_on@.len()
            ==> exists|j: int|
            0 <= j < i && (#[trigger] containers[places[j] as int]).name@ == (
            #[trigger] containers[places[i] as int].depends_on@[k]).container_name@
}

/// The containers of a specification that is accepted can be started one after the
/// other, each after those that it waits for.
pub proof fn lemma_accepted_can_start(spec: Spec)
    requires
        first_problem(spec) is None,
        spec.containers is Some,
        spec.containers->0@.len() <= usize::MAX,
    ensures
        exists|places: Seq<usize>| can_start_in(spec.containers->0@, places),
{
    let containers = spec.containers->0@;
    let volumes = spec.volumes@;
    let names = container_names(containers);
    let g = dependency_graph(containers);
    lemma_accepts_exactly_valid(spec);
    lemma_each_valid(containers, volumes, 0);
    lemma_graph_closed(containers, volumes);
    depgraph::lemma_acyclic_can_start(g);
    let places = choose|nodes: Seq<usize>|
        depgraph::in_starting_order(g, nodes) && nodes.len() == g.len();
    assert forall|i: int, k: int|
        0 <= i < places.len() && 0 <= k
            < containers[places[i] as int].depends_on@.len() implies exists|j: int|
        0 <= j < i && (#[trigger] containers[places[j] as int]).name@ == (
        #[trigger] containers[places[i] as int].depends_on@[k]).container_name@ by {
        let p = places[i] as int;
        let name = containers[p].depends_on@[k].container_name@;
        assert(places[i] < g.len());
        assert(names.contains(name));
        let m = names.index_of(name);
        assert(g[p][k] == m as usize);
        assert(places.take(i).contains(g[p][k]));
        let j = places.take(i).index_of(g[p][k]);
        assert(places[j] == m);
        assert(names[m] == name);
        assert(containers[places[j] as int].name@ == name);
    }
    assert(can_start_in(containers, places));
}

/// The sizes that Fargate offers: for each of five amounts of CPU a range of memory, in
/// steps of a gibibyte but for the smallest.
pub proof fn lemma_sizes_of_fargate(spec: Spec, cpu: nat, memory: nat)
    requires
        spec.cpu@ == number::decimal(cpu),
        spec.memory@ == number::decimal(memory),
        cpu <= u32::MAX,
        memory <= u32::MAX,
    ensures
        size_offered(spec) <==> ({
            ||| cpu == 256 && (memory == 512 || memory == 1024 || memory == 2048)
            ||| cpu == 512 && 1024 <= memory <= 4096 && memory % 1024 == 0
            ||| cpu == 1024 && 2048 <= memory <= 8192 && memory % 1024 == 0
            ||| cpu == 2048 && 4096 <= memory <= 16384 && memory % 1024 == 0
            ||| cpu == 4096 && 8192 <= memory <= 30720 && memory % 1024 == 0
        }),
{
    number::lemma_number_round_trip(cpu, u32::MAX as nat, 0);
    number::lemma_number_round_trip(memory, u32::MAX as nat, 0);
    lemma_gibibytes(1, 4, memory as u32);
    lemma_gibibytes(2, 8, memory as u32);
    lemma_gibibytes(4, 16, memory as u32);
    lemma_gibibytes(8, 30, memory as u32);
    let small = seq![512u32, 1024u32, 2048u32];
    assert(small[0] == 512 && small[1] == 1024 && small[2] == 2048);
}

proof fn lemma_gibibytes(first: int, last: int, m: u32)
    requires
        1 <= first <= last <= 100,
    ensures
        gibibytes(first, last).contains(m) <==> first * 1024 <= m <= last * 1024 && m % 1024 == 0,
        gibibytes(first, last).len() > 0,
{
    let list = gibibytes(first, last);
    if first * 1024 <= m <= last * 1024 && m % 1024 == 0 {
        let i = m / 1024 - first;
        assert(list[i] == m);
    }
    if list.contains(m) {
        let i = choose|i: int| 0 <= i < list.len() && list[i] == m;
        assert(m == (first + i) * 1024);
    }
}

/// What is wrong with the platform of a service is named in a fixed order: the architecture,
/// the capacity, a size that is no number, one that Fargate does not offer, and a negative
/// number of tasks.
pub proof fn lemma_platform_fault(spec: Spec)
    ensures
        ({
            let arch = spec.arch@ == "X86_64"@ || spec.arch@ == "ARM64"@;
            let capacity = spec.capacity@ == "FARGATE"@ || spec.capacity@ == "FARGATE_SPOT"@;
            let cpu = number::parse_unsigned_spec(spec.cpu@, u32::MAX as nat);
            let memory = number::parse_unsigned_spec(spec.memory@, u32::MAX as nat);
            let named = cpu matches Some(n) && (n == 256 || n == 512 || n == 1024 || n == 2048
                || n == 4096);
            let p = first_problem(spec);
            &&& !arch ==> (p matches Some(e) && e.0 == SpecProblem::Arch)
            &&& arch && !capacity ==> (p matches Some(e) && e.0 == SpecProblem::Capacity)
            &&& arch && capacity && cpu is None ==> (p matches Some(e) && e.0
                == SpecProblem::CpuNotANumber)
            &&& arch && capacity && cpu is Some && memory is None ==> (p matches Some(e) && e.0
                == SpecProblem::MemoryNotANumber)
            &&& arch && capacity && cpu is Some && memory is Some && !named ==> (p matches Some(e)
                && e.0 == SpecProblem::Cpu)
            &&& arch && capacity && memory is Some && named && !size_offered(spec) ==> (
            p matches Some(e) && e.0 == SpecProblem::Memory)
            &&& arch && capacity && size_offered(spec) && spec.desired_count < 0 ==> (
            p matches Some(e) && e.0 == SpecProblem::DesiredCount)
        }),
{
    let cpu = number::parse_unsigned_spec(spec.cpu@, u32::MAX as nat);
    lemma_gibibytes(1, 4, 0);
    lemma_gibibytes(2, 8, 0);
    lemma_gibibytes(4, 16, 0);
    lemma_gibibytes(8, 30, 0);
    if size_offered(spec) {
        let sizes = fargate_memories(cpu->0 as int);
        assert(sizes.len() > 0);
    }
}

/// What is wrong with the containers of a service as a whole is named in a fixed order: that
/// there are none, a name that two of them have, one that two volumes have, and that none is
/// essential.
pub proof fn lemma_containers_fault(containers: Seq<ContainerSpec>, volumes: Seq<VolumeSpec>)
    ensures
        ({
            let distinct = forall|i: int, j: int|
                0 <= i < j < containers.len() ==> (#[trigger] containers[i]).name@ != (
                #[trigger] containers[j]).name@;
            let apart = forall|i: int, j: int|
                0 <= i < j < volumes.len() ==> (#[trigger] volumes[i]).name@ != (
                #[trigger] volumes[j]).name@;
            let essential = exists|i: int|
                0 <= i < containers.len() && (#[trigger] containers[i]).essential;
            let p = containers_problem(containers, volumes);
            &&& containers.len() == 0 ==> (p matches Some(e) && e.0 == SpecProblem::NoContainers)
            &&& containers.len() > 0 && !distinct ==> (p matches Some(e) && e.0
                == SpecProblem::DuplicateContainer)
            &&& containers.len() > 0 && distinct && !apart ==> (p matches Some(e) && e.0
                == SpecProblem::DuplicateVolume)
            &&& containers.len() > 0 && distinct && apart && !essential ==> (p matches Some(e)
                && e.0 == SpecProblem::NoEssentialContainer)
            &&& p is None ==> containers.len() > 0 && distinct && apart && essential
        }),
{
    let names = container_names(containers);
    let vols = volume_names(volumes);
    assert(names.take(0).no_duplicates());
    assert(vols.take(0).no_duplicates());
    lemma_first_repeated(names, 0);
    lemma_first_repeated(vols, 0);
    assert forall|i: int| 0 <= i < names.len() implies names[i] == (
    #[trigger] containers[i]).name@ by {}
    assert forall|i: int| 0 <= i < vols.len() implies vols[i] == (#[trigger] volumes[i]).name@ by {}
    if names.no_duplicates() {
        assert forall|i: int, j: int| 0 <= i < j < containers.len() implies (
        #[trigger] containers[i]).name@ != (#[trigger] containers[j]).name@ by {
            assert(names[i] != names[j]);
        }
    } else {
        let (i, j) = choose|i: int, j: int|
            0 <= i < names.len() && 0 <= j < names.len() && i != j && names[i] == names[j];
        assert(containers[i].name@ == containers[j].name@);
    }
    if vols.no_duplicates() {
        assert forall|i: int, j: int| 0 <= i < j < volumes.len() implies (
        #[trigger] volumes[i]).name@ != (#[trigger] volumes[j]).name@ by {
            assert(vols[i] != vols[j]);
        }
    } else {
        let (i, j) = choose|i: int, j: int|
            0 <= i < vols.len() && 0 <= j < vols.len() && i != j && vols[i] == vols[j];
        assert(volumes[i].name@ == volumes[j].name@);
    }
}

/// What is wrong with one dependency is named by kind: a container that there is not, the
/// container itself, an essential one that is to end, and a health check.
pub proof fn lemma_dependency_fault(
    containers: Seq<ContainerSpec>,
    cs: ContainerSpec,
    dep: DependsOn,
)
    ensures
        ({
            let known = exists|i: int|
                0 <= i < containers.len() && (#[trigger] containers[i]).name@
                    == dep.container_name@;
            let essential = exists|i: int|
                0 <= i < containers.len() && (#[trigger] containers[i]).name@
                    == dep.container_name@ && containers[i].essential;
            let own = dep.container_name@ == cs.name@;
            let p = one_dependency_problem(containers, cs, dep);
            &&& !known ==> (p matches Some(e) && e.0 == SpecProblem::UnknownDependency)
            &&& known && own ==> (p matches Some(e) && e.0 == SpecProblem::SelfDependency)
            &&& known && !own && dep.condition is Healthy ==> (p matches Some(e) && e.0
                == SpecProblem::HealthyDependency)
            &&& known && !own && (dep.condition is Complete || dep.condition is Success)
                && essential ==> (p matches Some(e) && e.0 == SpecProblem::EssentialDependency)
            &&& p is None <==> known && !own && (dep.condition is Start || ((
            dep.condition is Complete || dep.condition is Success) && !essential))
        }),
{
    let names = container_names(containers);
    assert forall|i: int| 0 <= i < names.len() implies names[i] == (
    #[trigger] containers[i]).name@ by {}
    if names.contains(dep.container_name@) {
        let i = choose|i: int| 0 <= i < names.len() && names[i] == dep.container_name@;
        assert(containers[i].name@ == dep.container_name@);
    }
    if exists|i: int|
        0 <= i < containers.len() && (#[trigger] containers[i]).name@ == dep.container_name@ {
        let i = choose|i: int|
            0 <= i < containers.len() && (#[trigger] containers[i]).name@ == dep.container_name@;
        assert(names[i] == dep.container_name@);
    }
}

/// The graph of dependencies has an edge exactly where a container waits for another one.
pub proof fn lemma_edges_are_dependencies(containers: Seq<ContainerSpec>, i: int, j: usize)
    requires
        containers.len() <= usize::MAX,
        0 <= i < containers.len(),
        j < containers.len(),
        forall|a: int, b: int|
            0 <= a < b < containers.len() ==> (#[trigger] containers[a]).name@ != (
            #[trigger] containers[b]).name@,
        forall|k: int|
            0 <= k < containers[i].depends_on@.len() ==> exists|a: int|
                0 <= a < containers.len() && (#[trigger] containers[a]).name@ == (
                #[trigger] containers[i].depends_on@[k]).container_name@,
    ensures
        dependency_graph(containers).len() == containers.len(),
        dependency_graph(containers)[i].contains(j) <==> exists|k: int|
            0 <= k < containers[i].depends_on@.len() && (
            #[trigger] containers[i].depends_on@[k]).container_name@ == containers[j as int].name@,
{
    let g = dependency_graph(containers);
    let names = container_names(containers);
    let deps = containers[i].depends_on@;
    assert forall|a: int, b: int| 0 <= a < names.len() && 0 <= b < names.len() && a != b implies
        names[a] != names[b] by {
        if a < b {
            assert(containers[a].name@ != containers[b].name@);
        } else {
            assert(containers[b].name@ != containers[a].name@);
        }
    }
    assert forall|k: int| 0 <= k < deps.len() implies 0 <= names.index_of(
        (#[trigger] deps[k]).container_name@,
    ) < names.len() && names[names.index_of(deps[k].container_name@)]
        == deps[k].container_name@ && g[i][k] == names.index_of(deps[k].container_name@) by {
        let a = choose|a: int|
            0 <= a < containers.len() && (#[trigger] containers[a]).name@
                == deps[k].container_name@;
        assert(names[a] == deps[k].container_name@);
        assert(names.contains(deps[k].container_name@));
        assert(g[i][k] == names.index_of(deps[k].container_name@) as usize);
    }
    if g[i].contains(j) {
        let k = choose|k: int| 0 <= k < g[i].len() && g[i][k] == j;
        assert(deps[k].container_name@ == names[j as int]);
    }
    if exists|k: int|
        0 <= k < deps.len() && (#[trigger] deps[k]).container_name@ == containers[j as int].name@ {
        let k = choose|k: int|
            0 <= k < deps.len() && (#[trigger] deps[k]).container_name@
                == containers[j as int].name@;
        assert(names[names.index_of(deps[k].container_name@)] == names[j as int]);
        assert(g[i][k] == j);
    }
}

/// What is wrong with a container by itself is named by kind: a capability that there is not
/// before a dependency, and a dependency before a volume that there is not.
pub proof fn lemma_container_fault(
    containers: Seq<ContainerSpec>,
    volumes: Seq<VolumeSpec>,
    cs: ContainerSpec,
)
    ensures
        ({
            let drops = cs.linux_parameters is Some && exists|k: int|
                0 <= k < cs.linux_parameters->0.capabilities_drop@.len()
                    && !crate::apply::known_capabilities().contains(
                    (#[trigger] cs.linux_parameters->0.capabilities_drop@[k])@,
                );
            let waits = exists|k: int|
                0 <= k < cs.depends_on@.len() && one_dependency_problem(
                    containers,
                    cs,
                    #[trigger] cs.depends_on@[k],
                ) is Some;
            let mounts = exists|k: int|
                0 <= k < cs.mount_points.len_spec() && forall|v: int|
                    0 <= v < volumes.len() ==> (#[trigger] volumes[v]).name@ != (
                    #[trigger] cs.mount_points.value(k)).volume();
            let p = one_container_problem(containers, volumes, cs);
            &&& drops ==> (p matches Some(e) && e.0 == SpecProblem::UnknownCapability)
            &&& !drops && waits ==> (p matches Some(e) && e.0 != SpecProblem::UnknownCapability
                && e.0 != SpecProblem::UnknownVolume)
            &&& !drops && !waits && mounts ==> (p matches Some(e) && e.0
                == SpecProblem::UnknownVolume)
            &&& !drops && !waits && !mounts ==> p is None
        }),
{
    lemma_capability_kind(cs, 0);
    lemma_dependency_kind(containers, cs, 0);
    lemma_mount_kind(volumes, cs, 0);
}

proof fn lemma_capability_kind(cs: ContainerSpec, i: int)
    requires
        0 <= i,
    ensures
        capability_problem(cs, i) matches Some(e) ==> e.0 == SpecProblem::UnknownCapability,
        capability_problem(cs, i) is Some <==> cs.linux_parameters is Some && exists|k: int|
            i <= k < cs.linux_parameters->0.capabilities_drop@.len()
                && !crate::apply::known_capabilities().contains(
                (#[trigger] cs.linux_parameters->0.capabilities_drop@[k])@,
            ),
    decreases cs.linux_parameters->0.capabilities_drop@.len() - i,
{
    if cs.linux_parameters is Some && i < cs.linux_parameters->0.capabilities_drop@.len() {
        lemma_capability_kind(cs, i + 1);
    }
}

proof fn lemma_dependency_kind(containers: Seq<ContainerSpec>, cs: ContainerSpec, i: int)
    requires
        0 <= i,
    ensures
        dependency_problem(containers, cs, i) matches Some(e) ==> e.0
            != SpecProblem::UnknownCapability && e.0 != SpecProblem::UnknownVolume,
        dependency_problem(containers, cs, i) is Some <==> exists|k: int|
            i <= k < cs.depends_on@.len() && one_dependency_problem(
                containers,
                cs,
                #[trigger] cs.depends_on@[k],
            ) is Some,
    decreases cs.depends_on@.len() - i,
{
    if i < cs.depends_on@.len() {
        lemma_dependency_kind(containers, cs, i + 1);
    }
}

proof fn lemma_mount_kind(volumes: Seq<VolumeSpec>, cs: ContainerSpec, i: int)
    requires
        0 <= i,
    ensures
        mount_problem(volumes, cs, i) matches Some(e) ==> e.0 == SpecProblem::UnknownVolume,
        mount_problem(volumes, cs, i) is Some <==> exists|k: int|
            i <= k < cs.mount_points.len_spec() && forall|v: int|
                0 <= v < volumes.len() ==> (#[trigger] volumes[v]).name@ != (
                #[trigger] cs.mount_points.value(k)).volume(),
    decreases cs.mount_points.len_spec() - i,
{
    let names = volume_names(volumes);
    if i < cs.mount_points.len_spec() {
        lemma_mount_kind(volumes, cs, i + 1);
        let volume = cs.mount_points.value(i).volume();
        if names.contains(volume) {
            let v = choose|v: int| 0 <= v < names.len() && names[v] == volume;
            assert(volumes[v].name@ == volume);
        } else {
            assert forall|v: int| 0 <= v < volumes.len() implies (#[trigger] volumes[v]).name@
                != volume by {
                assert(names[v] == volumes[v].name@);
            }
        }
    }
}

/// Containers that have nothing against them one by one, and are refused nevertheless, wait
/// for each other in a circle.
pub proof fn lemma_circle_is_named(containers: Seq<ContainerSpec>, volumes: Seq<VolumeSpec>)
    requires
        containers.len() > 0,
        forall|i: int, j: int|
            0 <= i < j < containers.len() ==> (#[trigger] containers[i]).name@ != (
            #[trigger] containers[j]).name@,
        forall|i: int, j: int|
            0 <= i < j < volumes.len() ==> (#[trigger] volumes[i]).name@ != (
            #[trigger] volumes[j]).name@,
        exists|i: int| 0 <= i < containers.len() && (#[trigger] containers[i]).essential,
        forall|i: int|
            0 <= i < containers.len() ==> one_container_problem(
                containers,
                volumes,
                #[trigger] containers[i],
            ) is None,
        containers_problem(containers, volumes) is Some,
    ensures
        (containers_problem(containers, volumes)->0).0 == SpecProblem::DependencyCycle,
{
    lemma_none_of_each(containers, volumes, 0);
    let names = container_names(containers);
    let vols = volume_names(volumes);
    assert(names.take(0).no_duplicates());
    assert(vols.take(0).no_duplicates());
    lemma_first_repeated(names, 0);
    lemma_first_repeated(vols, 0);
    assert forall|a: int, b: int| 0 <= a < names.len() && 0 <= b < names.len() && a != b implies
        names[a] != names[b] by {
        if a < b {
            assert(containers[a].name@ != containers[b].name@);
        } else {
            assert(containers[b].name@ != containers[a].name@);
        }
    }
    assert forall|a: int, b: int| 0 <= a < vols.len() && 0 <= b < vols.len() && a != b implies
        vols[a] != vols[b] by {
        if a < b {
            assert(volumes[a].name@ != volumes[b].name@);
        } else {
            assert(volumes[b].name@ != volumes[a].name@);
        }
    }
}

proof fn lemma_none_of_each(containers: Seq<ContainerSpec>, volumes: Seq<VolumeSpec>, i: int)
    requires
        0 <= i,
        forall|k: int|
            0 <= k < containers.len() ==> one_container_problem(
                containers,
                volumes,
                #[trigger] containers[k],
            ) is None,
    ensures
        each_container_problem(containers, volumes, i) is None,
    decreases containers.len() - i,
{
    if i < containers.len() {
        lemma_none_of_each(containers, volumes, i + 1);
    }
}

} // verus!
