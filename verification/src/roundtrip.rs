//! What is applied can be exported again.

use crate::apply;
use crate::apply::{
    ContainerSpec, ContainerSpecView, DependsOn, DependsOnCondition, MountPointSpec, MountSpecView,
    ServiceSpec, ServiceSpecView, Spec, SpecView, VolumeSpec,
};
use crate::container;
use crate::ecs::{
    ConditionView, ContainerView, MountPointView, ServiceRequestView, ServiceView,
    TaskDefinitionView, VolumeView,
};
use crate::export;
use crate::order;
use crate::strmap::StrMap;
use crate::task;
use crate::text;
use crate::textmap;
use crate::validate;
use vstd::prelude::*;

verus! {

/// A list, unless it is empty.
pub open spec fn unless_empty(list: Option<Seq<Seq<char>>>) -> Option<Seq<Seq<char>>> {
    match list {
        Some(l) => if l.len() == 0 {
            None
        } else {
            Some(l)
        },
        None => None,
    }
}

/// A mount, in the short form where that says the same.
pub open spec fn short_mount(m: MountSpecView) -> MountSpecView {
    match m {
        MountSpecView::Detailed { source_volume, read_only } => if read_only {
            m
        } else {
            MountSpecView::Volume(source_volume)
        },
        MountSpecView::Volume(_) => m,
    }
}

/// A container, in the form that an export writes it: no empty lists, and
/// mounts in the short form.
pub open spec fn normal_container(c: ContainerSpecView) -> ContainerSpecView {
    ContainerSpecView {
        command: unless_empty(c.command),
        entry_point: unless_empty(c.entry_point),
        mount_points: c.mount_points.map_values(|m: MountSpecView| short_mount(m)),
        ..c
    }
}

/// Whether the maps of a container are in order, as every map in memory is.
pub open spec fn in_order(cs: ContainerSpec) -> bool {
    cs.env.ordered() && cs.secrets.ordered() && cs.mount_points.ordered()
}

proof fn lemma_env_back(list: Seq<(Seq<char>, Seq<char>)>)
    ensures
        export::exported_env(
            list.map_values(|kv: (Seq<char>, Seq<char>)| (Some(kv.0), Some(kv.1))),
        ) == textmap::collected(list),
    decreases list.len(),
{
    let all = list.map_values(|kv: (Seq<char>, Seq<char>)| (Some(kv.0), Some(kv.1)));
    if list.len() > 0 {
        lemma_env_back(list.drop_last());
        assert(all.drop_last() =~= list.drop_last().map_values(
            |kv: (Seq<char>, Seq<char>)| (Some(kv.0), Some(kv.1)),
        ));
        assert(all.last() == (Some(list.last().0), Some(list.last().1)));
    }
}

proof fn lemma_dependencies_back(list: Seq<DependsOn>)
    requires
        forall|i: int|
            0 <= i < list.len() ==> (#[trigger] list[i]).condition != DependsOnCondition::Healthy,
    ensures
        export::exported_dependencies(
            list.map_values(
                |d: DependsOn| (d.container_name@, task::ecs_condition(d.condition)),
            ),
        ) == list.map_values(|d: DependsOn| (d.container_name@, d.condition)),
    decreases list.len(),
{
    let sent = list.map_values(
        |d: DependsOn| (d.container_name@, task::ecs_condition(d.condition)),
    );
    let kept = list.map_values(|d: DependsOn| (d.container_name@, d.condition));
    if list.len() > 0 {
        let front = list.drop_last();
        assert forall|i: int| 0 <= i < front.len() implies (#[trigger] front[i]).condition
            != DependsOnCondition::Healthy by {
            assert(front[i] == list[i]);
        }
        lemma_dependencies_back(front);
        assert(sent.drop_last() =~= front.map_values(
            |d: DependsOn| (d.container_name@, task::ecs_condition(d.condition)),
        ));
        assert(kept.drop_last() =~= front.map_values(
            |d: DependsOn| (d.container_name@, d.condition),
        ));
        let last = list[list.len() - 1];
        assert(sent.last() == (last.container_name@, task::ecs_condition(last.condition)));
        assert(kept =~= kept.drop_last().push((last.container_name@, last.condition)));
    } else {
        assert(kept =~= Seq::empty());
    }
}

proof fn lemma_no_healthy(list: Seq<DependsOn>, i: int)
    requires
        0 <= i <= list.len(),
        task::first_healthy(list, i) == list.len(),
    ensures
        forall|j: int|
            i <= j < list.len() ==> (#[trigger] list[j]).condition != DependsOnCondition::Healthy,
    decreases list.len() - i,
{
    if i < list.len() {
        lemma_no_healthy(list, i + 1);
    }
}

spec fn sent_mounts(m: StrMap<MountPointSpec>) -> Seq<MountPointView> {
    Seq::new(m.len_spec() as nat, |i: int| task::mount_view(m.key(i), m.value(i)))
}

proof fn lemma_mounts_take(m: StrMap<MountPointSpec>, n: int)
    requires
        m.ordered(),
        0 <= n <= m.len_spec(),
    ensures
        forall|j: int|
            0 <= j < n ==> export::exported_mounts(sent_mounts(m).take(n)).contains_key(
                #[trigger] m.key(j),
            ) && export::exported_mounts(sent_mounts(m).take(n))[m.key(j)] == short_mount(
                m.value(j)@,
            ),
        forall|k: Seq<char>| #[trigger]
            export::exported_mounts(sent_mounts(m).take(n)).contains_key(k) ==> exists|j: int|
                0 <= j < n && #[trigger] m.key(j) == k,
    decreases n,
{
    if n > 0 {
        lemma_mounts_take(m, n - 1);
        let before = sent_mounts(m).take(n - 1);
        let after = sent_mounts(m).take(n);
        assert(after.drop_last() =~= before);
        assert(after.last() == task::mount_view(m.key(n - 1), m.value(n - 1)));
        let old_map = export::exported_mounts(before);
        let new_map = export::exported_mounts(after);
        assert(new_map == old_map.insert(m.key(n - 1), short_mount(m.value(n - 1)@)));
        assert forall|j: int| 0 <= j < n implies new_map.contains_key(#[trigger] m.key(j))
            && new_map[m.key(j)] == short_mount(m.value(j)@) by {
            if j < n - 1 {
                assert(order::precedes(m.key(j), m.key(n - 1)));
                order::lemma_irreflexive(m.key(j));
            }
        }
        assert forall|k: Seq<char>| #[trigger] new_map.contains_key(k) implies exists|j: int|
            0 <= j < n && #[trigger] m.key(j) == k by {
            if k != m.key(n - 1) {
                assert(old_map.contains_key(k));
                let j = choose|j: int| 0 <= j < n - 1 && #[trigger] m.key(j) == k;
                assert(m.key(j) == k);
            }
        }
    }
}

proof fn lemma_mounts_back(m: StrMap<MountPointSpec>)
    requires
        m.ordered(),
    ensures
        export::exported_mounts(sent_mounts(m)) == m@.map_values(
            |v: MountPointSpec| v@,
        ).map_values(|v: MountSpecView| short_mount(v)),
{
    let n = m.len_spec();
    lemma_mounts_take(m, n);
    assert(sent_mounts(m).take(n) =~= sent_mounts(m));
    let got = export::exported_mounts(sent_mounts(m));
    let want = m@.map_values(|v: MountPointSpec| v@).map_values(|v: MountSpecView| short_mount(v));
    assert forall|k: Seq<char>| got.contains_key(k) <==> want.contains_key(k) by {
        if got.contains_key(k) {
            let j = choose|j: int| 0 <= j < n && #[trigger] m.key(j) == k;
            assert(m@.contains_key(m.key(j)));
        }
        if want.contains_key(k) {
            assert(m.has(k));
            let j = choose|j: int| 0 <= j < n && #[trigger] m.key(j) == k;
            assert(got.contains_key(m.key(j)));
        }
    }
    assert forall|k: Seq<char>| got.contains_key(k) implies got[k] == want[k] by {
        let j = choose|j: int| 0 <= j < n && #[trigger] m.key(j) == k;
        assert(m@[m.key(j)] == m.value(j));
    }
    assert(got =~= want);
}

proof fn lemma_known_capabilities(list: Seq<Seq<char>>, i: int)
    requires
        0 <= i <= list.len(),
        forall|j: int|
            i <= j < list.len() ==> apply::known_capabilities().contains(
                #[trigger] list[j],
            ),
    ensures
        export::first_unknown(list, i) == list.len(),
    decreases list.len() - i,
{
    if i < list.len() {
        lemma_known_capabilities(list, i + 1);
    }
}

/// The log group that a container is defined with is the one that it was given.
proof fn lemma_log_back(group: Seq<char>, region: Seq<char>, service: Seq<char>)
    ensures
        export::exported_log_group(Some(task::log_view(group, region, service))) == Some(group),
{
    reveal_strlit("awslogs-group");
    reveal_strlit("awslogs-region");
    reveal_strlit("awslogs-stream-prefix");
    assert("awslogs-group"@.len() != "awslogs-region"@.len());
    assert("awslogs-group"@.len() != "awslogs-stream-prefix"@.len());
}

/// Defining a container and exporting the definition gives the container back,
/// but for empty lists, which are left out, and the long form of a mount that
/// can be written to, which becomes the short one.
pub proof fn lemma_container_round_trip(cs: ContainerSpec, service: Seq<char>, region: Seq<char>)
    requires
        in_order(cs),
        task::define_result(cs, service, region) is Ok,
        cs.linux_parameters matches Some(lp) ==> forall|i: int|
            0 <= i < lp.capabilities_drop@.len() ==> apply::known_capabilities().contains(
                (#[trigger] lp.capabilities_drop@[i])@,
            ),
    ensures
        export::exported_container(task::define_result(cs, service, region)->Ok_0) == Ok::<
            ContainerSpecView,
            export::Problem,
        >(normal_container(cs@)),
{
    let cd = task::container_view(cs, service, region);
    lemma_env_back(textmap::pairs(cs.env));
    textmap::lemma_collected(cs.env);
    textmap::lemma_collected(cs.secrets);
    lemma_first_healthy_bounds(cs.depends_on@, 0);
    lemma_no_healthy(cs.depends_on@, 0);
    lemma_dependencies_back(cs.depends_on@);
    lemma_mounts_back(cs.mount_points);
    assert(cd.mount_points =~= sent_mounts(cs.mount_points));
    match cs.log_group {
        Some(group) => {
            lemma_log_back(group@, region, service);
        },
        None => {},
    }
    match cs.linux_parameters {
        Some(lp) => {
            let dropped = text::texts(lp.capabilities_drop@);
            assert forall|j: int| 0 <= j < dropped.len() implies
                apply::known_capabilities().contains(#[trigger] dropped[j]) by {
                assert(dropped[j] == lp.capabilities_drop@[j]@);
            }
            lemma_known_capabilities(dropped, 0);
        },
        None => {},
    }
    let got = export::exported_container(cd)->Ok_0;
    let want = normal_container(cs@);
    assert(got.port == want.port);
    assert(got =~= want);
}

proof fn lemma_first_healthy_bounds(list: Seq<DependsOn>, i: int)
    requires
        0 <= i <= list.len(),
    ensures
        i <= task::first_healthy(list, i) <= list.len(),
    decreases list.len() - i,
{
    if i < list.len() {
        lemma_first_healthy_bounds(list, i + 1);
    }
}

/// Whether a setting of a file system is absent, on or off.
pub open spec fn is_toggle(setting: Option<String>) -> bool {
    setting matches Some(word) ==> word@ == "ENABLED"@ || word@ == "DISABLED"@
}

/// Whether an export can express a volume.
pub open spec fn exportable_volume(v: VolumeSpec) -> bool {
    &&& !v.configured_at_launch
    &&& v.efs matches Some(efs) ==> is_toggle(efs.transit_encryption) && is_toggle(efs.iam)
}

/// Defining a volume and exporting the definition gives the volume back.
pub proof fn lemma_volume_round_trip(v: VolumeSpec)
    requires
        exportable_volume(v),
    ensures
        export::exported_volume(task::volume_view(v)) == Ok::<
            apply::VolumeSpecView,
            export::Problem,
        >(v@),
{
    match v.efs {
        Some(efs) => {
            let sent = task::efs_view(efs);
            assert(export::exported_efs(v.name@, sent) == Ok::<
                crate::apply::EfsSpecView,
                export::Problem,
            >(efs@));
        },
        None => {},
    }
}

proof fn lemma_volumes_back(list: Seq<VolumeSpec>, n: int)
    requires
        0 <= n <= list.len(),
        forall|i: int| 0 <= i < list.len() ==> exportable_volume(#[trigger] list[i]),
    ensures
        export::exported_volumes(list.map_values(|v: VolumeSpec| task::volume_view(v)), n) == Ok::<
            Seq<apply::VolumeSpecView>,
            export::Problem,
        >(list.map_values(|v: VolumeSpec| v@).take(n)),
    decreases n,
{
    let sent = list.map_values(|v: VolumeSpec| task::volume_view(v));
    let kept = list.map_values(|v: VolumeSpec| v@);
    if n > 0 {
        lemma_volumes_back(list, n - 1);
        lemma_volume_round_trip(list[n - 1]);
        assert(sent[n - 1] == task::volume_view(list[n - 1]));
        assert(kept.take(n) =~= kept.take(n - 1).push(list[n - 1]@));
    } else {
        assert(kept.take(0) =~= Seq::empty());
    }
}

/// Whether an export can express a container: ECS knows the capabilities that
/// it drops, and it is not taken for one that ECS added.
pub open spec fn exportable_container(cs: ContainerSpec) -> bool {
    &&& in_order(cs)
    &&& !"ecs-service-connect-"@.is_prefix_of(cs.name@)
    &&& cs.linux_parameters matches Some(lp) ==> forall|i: int|
        0 <= i < lp.capabilities_drop@.len() ==> apply::known_capabilities().contains(
            (#[trigger] lp.capabilities_drop@[i])@,
        )
}

proof fn lemma_defined_each(
    list: Seq<ContainerSpec>,
    service: Seq<char>,
    region: Seq<char>,
    n: int,
)
    requires
        0 <= n <= list.len(),
        task::define_each(list, service, region, n) is Ok,
    ensures
        task::define_each(list, service, region, n)->Ok_0.len() == n,
        forall|i: int|
            0 <= i < n ==> task::define_result(list[i], service, region) == Ok::<
                ContainerView,
                (task::DefineProblem, Seq<char>),
            >(#[trigger] task::define_each(list, service, region, n)->Ok_0[i]),
    decreases n,
{
    if n > 0 {
        lemma_defined_each(list, service, region, n - 1);
    }
}

proof fn lemma_apps_all(list: Seq<ContainerView>)
    requires
        forall|i: int| 0 <= i < list.len() ==> !container::is_service_connect(#[trigger] list[i]),
    ensures
        export::app_containers(list) == list,
    decreases list.len(),
{
    if list.len() > 0 {
        let front = list.drop_last();
        assert forall|i: int| 0 <= i < front.len() implies !container::is_service_connect(
            #[trigger] front[i],
        ) by {
            assert(front[i] == list[i]);
        }
        lemma_apps_all(front);
        assert(!container::is_service_connect(list[list.len() - 1]));
        assert(front.push(list.last()) =~= list);
    } else {
        assert(list =~= Seq::empty());
    }
}

proof fn lemma_containers_back(
    list: Seq<ContainerSpec>,
    sent: Seq<ContainerView>,
    service: Seq<char>,
    region: Seq<char>,
    n: int,
)
    requires
        0 <= n <= list.len(),
        sent.len() == list.len(),
        forall|i: int| 0 <= i < list.len() ==> exportable_container(#[trigger] list[i]),
        forall|i: int|
            0 <= i < list.len() ==> task::define_result(list[i], service, region) == Ok::<
                ContainerView,
                (task::DefineProblem, Seq<char>),
            >(#[trigger] sent[i]),
    ensures
        export::exported_containers(sent, n) == Ok::<Seq<ContainerSpecView>, export::Problem>(
            list.map_values(|c: ContainerSpec| normal_container(c@)).take(n),
        ),
    decreases n,
{
    let kept = list.map_values(|c: ContainerSpec| normal_container(c@));
    if n > 0 {
        lemma_containers_back(list, sent, service, region, n - 1);
        assert(exportable_container(list[n - 1]));
        assert(task::define_result(list[n - 1], service, region) == Ok::<
            ContainerView,
            (task::DefineProblem, Seq<char>),
        >(sent[n - 1]));
        lemma_container_round_trip(list[n - 1], service, region);
        assert(kept.take(n) =~= kept.take(n - 1).push(normal_container(list[n - 1]@)));
    } else {
        assert(kept.take(0) =~= Seq::empty());
    }
}

/// Whether a container has a setting that only the entries of a list of
/// containers can express.
pub open spec fn needs_list(cs: ContainerSpecView) -> bool {
    ||| cs.user is Some
    ||| cs.readonly_root_filesystem
    ||| unless_empty(cs.entry_point) is Some
    ||| cs.depends_on.len() > 0
    ||| cs.capabilities_drop is Some
    ||| exists|path: Seq<char>| cs.mount_points.contains_key(path)
}

/// The container part of a specification, in the form that an export writes it:
/// one container that needs no list is described directly.
pub open spec fn normal_part(spec: SpecView) -> export::ContainerPart {
    match spec.containers {
        Some(list) => if list.len() == 1 && !needs_list(list[0]) {
            export::ContainerPart {
                image: list[0].image,
                container_name: Some(list[0].name),
                port: list[0].port,
                command: unless_empty(list[0].command),
                env: list[0].env,
                secrets: list[0].secrets,
                log_group: list[0].log_group,
                containers: None,
            }
        } else {
            export::listed(list.map_values(|c: ContainerSpecView| normal_container(c)))
        },
        None => export::ContainerPart {
            image: spec.image,
            container_name: Some(
                match spec.container_name {
                    Some(name) => name,
                    None => "app"@,
                },
            ),
            port: spec.port,
            command: unless_empty(spec.command),
            env: spec.env,
            secrets: spec.secrets,
            log_group: spec.log_group,
            containers: None,
        },
    }
}

/// A specification, in the form that an export writes it.
pub open spec fn normal_service(spec: ServiceSpecView) -> ServiceSpecView {
    let part = normal_part(spec.spec);
    ServiceSpecView {
        api_version: Some("ecsctl/v1"@),
        kind: Some("Service"@),
        spec: SpecView {
            image: part.image,
            container_name: part.container_name,
            port: part.port,
            command: part.command,
            env: part.env,
            secrets: part.secrets,
            log_group: part.log_group,
            containers: part.containers,
            subnets: Some(
                match spec.spec.subnets {
                    Some(list) => list,
                    None => Seq::empty(),
                },
            ),
            security_groups: Some(
                match spec.spec.security_groups {
                    Some(list) => list,
                    None => Seq::empty(),
                },
            ),
            ..spec.spec
        },
        ..spec
    }
}

/// The service that ECS describes after it was created as requested.
pub open spec fn service_as_requested(request: ServiceRequestView) -> ServiceView {
    ServiceView {
        task_definition: Some(request.task_definition),
        desired_count: request.desired_count,
        enable_execute_command: request.enable_execute_command,
        network: request.network,
        capacity_providers: request.capacity_provider_strategy.map_values(
            |p: (Seq<char>, i32)| p.0,
        ),
    }
}

/// Whether an export can express a specification.
pub open spec fn exportable(spec: Spec) -> bool {
    &&& spec.env.ordered()
    &&& spec.secrets.ordered()
    &&& forall|i: int| 0 <= i < spec.volumes@.len() ==> exportable_volume(#[trigger] spec.volumes@[i])
    &&& match spec.containers {
        Some(list) => forall|i: int|
            0 <= i < list@.len() ==> exportable_container(#[trigger] list@[i]),
        None => spec.container_name matches Some(name) ==> !"ecs-service-connect-"@.is_prefix_of(
            name@,
        ),
    }
}

proof fn lemma_part_back(spec: Spec, service: Seq<char>, region: Seq<char>)
    requires
        exportable(spec),
        task::defined_containers(spec, service, region) is Ok,
        spec.containers matches Some(list) ==> list@.len() > 0,
    ensures
        export::exported_part(
            export::app_containers(task::defined_containers(spec, service, region)->Ok_0),
        ) == Ok::<export::ContainerPart, export::Problem>(normal_part(spec@)),
{
    let sent = task::defined_containers(spec, service, region)->Ok_0;
    match spec.containers {
        Some(vec) => {
            let list = vec@;
            let n = list.len() as int;
            lemma_defined_each(list, service, region, n);
            assert forall|i: int| 0 <= i < n implies task::define_result(list[i], service, region)
                == Ok::<ContainerView, (task::DefineProblem, Seq<char>)>(#[trigger] sent[i]) by {}
            assert forall|i: int| 0 <= i < sent.len() implies !container::is_service_connect(
                #[trigger] sent[i],
            ) by {
                assert(exportable_container(list[i]));
                assert(task::define_result(list[i], service, region) == Ok::<
                    ContainerView,
                    (task::DefineProblem, Seq<char>),
                >(sent[i]));
            }
            lemma_apps_all(sent);
            lemma_containers_back(list, sent, service, region, n);
            let views = spec@.containers->0;
            assert(views =~= list.map_values(|c: ContainerSpec| c@));
            let kept = list.map_values(|c: ContainerSpec| normal_container(c@));
            assert(kept.take(n) =~= kept);
            assert(kept =~= views.map_values(|c: ContainerSpecView| normal_container(c)));
            let cs = list[0];
            assert(exportable_container(cs));
            assert(sent[0] == task::container_view(cs, service, region));
            assert(export::uses_new_fields(sent[0]) <==> needs_list(cs@)) by {
                assert(views[0] == cs@);
                assert(cs@.depends_on.len() == cs.depends_on@.len());
                if cs.mount_points.len_spec() > 0 {
                    assert(cs.mount_points@.contains_key(cs.mount_points.key(0)));
                    assert(cs@.mount_points.contains_key(cs.mount_points.key(0)));
                }
                if exists|path: Seq<char>| cs@.mount_points.contains_key(path) {
                    let path = choose|path: Seq<char>| cs@.mount_points.contains_key(path);
                    assert(cs.mount_points.has(path));
                }
            }
            if n == 1 && !needs_list(cs@) {
                lemma_container_round_trip(cs, service, region);
                assert(export::flat(sent[0]) =~= normal_part(spec@));
            }
        },
        None => {
            let cd = task::single_container_view(spec, service, region);
            reveal_strlit("ecs-service-connect-");
            reveal_strlit("app");
            assert(sent =~= seq![cd]);
            assert(!container::is_service_connect(cd)) by {
                if container::is_service_connect(cd) && spec.container_name is None {
                    assert("ecs-service-connect-"@.len() <= "app"@.len());
                }
            }
            lemma_apps_all(sent);
            lemma_env_back(textmap::pairs(spec.env));
            textmap::lemma_collected(spec.env);
            textmap::lemma_collected(spec.secrets);
            match spec.log_group {
                Some(group) => {
                    lemma_log_back(group@, region, service);
                },
                None => {},
            }
            assert(export::flat(cd).port == spec.port);
            assert(export::flat(cd) =~= normal_part(spec@));
        },
    }
}

proof fn lemma_valid_has_no_healthy(
    containers: Seq<ContainerSpec>,
    cs: ContainerSpec,
    i: int,
)
    requires
        0 <= i <= cs.depends_on@.len(),
        validate::dependency_problem(containers, cs, i) is None,
    ensures
        task::first_healthy(cs.depends_on@, i) == cs.depends_on@.len(),
    decreases cs.depends_on@.len() - i,
{
    if i < cs.depends_on@.len() {
        lemma_valid_has_no_healthy(containers, cs, i + 1);
    }
}

proof fn lemma_valid_each_defined(
    containers: Seq<ContainerSpec>,
    volumes: Seq<VolumeSpec>,
    service: Seq<char>,
    region: Seq<char>,
    n: int,
)
    requires
        0 <= n <= containers.len(),
        forall|i: int|
            0 <= i < containers.len() ==> validate::one_container_problem(
                containers,
                volumes,
                #[trigger] containers[i],
            ) is None,
    ensures
        task::define_each(containers, service, region, n) is Ok,
    decreases n,
{
    if n > 0 {
        lemma_valid_each_defined(containers, volumes, service, region, n - 1);
        assert(validate::one_container_problem(containers, volumes, containers[n - 1])
            is None);
        lemma_valid_has_no_healthy(containers, containers[n - 1], 0);
    }
}

/// A specification that is accepted can be registered: no check that follows
/// refuses it.
pub proof fn lemma_valid_is_registered(spec: ServiceSpec, region: Seq<char>)
    requires
        validate::first_problem(spec.spec) is None,
    ensures
        task::registration(spec, region) is Ok,
{
    match spec.spec.containers {
        Some(list) => {
            validate::lemma_each_sound(list@, spec.spec.volumes@, 0);
            lemma_valid_each_defined(
                list@,
                spec.spec.volumes@,
                spec.metadata.name@,
                region,
                list@.len() as int,
            );
        },
        None => {},
    }
}

proof fn lemma_exported_conditions(list: Seq<(Seq<char>, ConditionView)>)
    ensures
        forall|i: int|
            0 <= i < export::exported_dependencies(list).len() ==> (
            #[trigger] export::exported_dependencies(list)[i]).1 != DependsOnCondition::Healthy,
    decreases list.len(),
{
    if list.len() > 0 {
        lemma_exported_conditions(list.drop_last());
    }
}

proof fn lemma_all_known(list: Seq<Seq<char>>, i: int)
    requires
        0 <= i <= list.len(),
        export::first_unknown(list, i) == list.len(),
    ensures
        forall|j: int|
            i <= j < list.len() ==> apply::known_capabilities().contains(
                #[trigger] list[j],
            ),
    decreases list.len() - i,
{
    if i < list.len() {
        lemma_all_known(list, i + 1);
    }
}

proof fn lemma_first_unknown_bounds(list: Seq<Seq<char>>, i: int)
    requires
        0 <= i <= list.len(),
    ensures
        i <= export::first_unknown(list, i) <= list.len(),
    decreases list.len() - i,
{
    if i < list.len() {
        lemma_first_unknown_bounds(list, i + 1);
    }
}

/// An exported container can be applied again: it waits for no other container
/// to be healthy, and drops only capabilities that validation knows.
pub proof fn lemma_exported_container_is_acceptable(cd: ContainerView)
    requires
        export::exported_container(cd) is Ok,
    ensures
        forall|i: int|
            0 <= i < export::exported_container(cd)->Ok_0.depends_on.len() ==> (
            #[trigger] export::exported_container(cd)->Ok_0.depends_on[i]).1
                != DependsOnCondition::Healthy,
        export::exported_container(cd)->Ok_0.capabilities_drop matches Some(dropped) ==> forall|
            i: int,
        |
            0 <= i < dropped.len() ==> apply::known_capabilities().contains(
                #[trigger] dropped[i],
            ),
{
    lemma_exported_conditions(cd.depends_on);
    match cd.linux_parameters {
        Some(Some((_, dropped))) => {
            lemma_first_unknown_bounds(dropped, 0);
            lemma_all_known(dropped, 0);
        },
        _ => {},
    }
}

/// A service that was created from a valid specification is exported as that
/// specification, in the form that an export writes it, as long as ECS
/// describes the service and its task definition as they were requested.
pub proof fn lemma_service_round_trip(spec: ServiceSpec, region: Seq<char>, arn: Seq<char>)
    requires
        validate::first_problem(spec.spec) is None,
        exportable(spec.spec),
    ensures
        export::export_result(
            spec.metadata.cluster@,
            spec.metadata.name@,
            service_as_requested(task::service_request_view(spec, arn, false)),
            task::registration(spec, region)->Ok_0,
        ) == Ok::<ServiceSpecView, export::Problem>(normal_service(spec@)),
{
    lemma_valid_is_registered(spec, region);
    let td = task::registration(spec, region)->Ok_0;
    let svc = service_as_requested(task::service_request_view(spec, arn, false));
    let volumes = spec.spec.volumes@;
    lemma_volumes_back(volumes, volumes.len() as int);
    let kept = volumes.map_values(|v: VolumeSpec| v@);
    assert(kept.take(volumes.len() as int) =~= kept);
    lemma_part_back(spec.spec, spec.metadata.name@, region);
    let part = normal_part(spec@.spec);
    let got = export::exported_service(
        spec.metadata.cluster@,
        spec.metadata.name@,
        svc,
        td,
        kept,
        part,
    );
    reveal_strlit("ENABLED");
    reveal_strlit("DISABLED");
    assert("ENABLED"@.len() != "DISABLED"@.len());
    if spec.spec.capacity@ == "FARGATE_SPOT"@ {
        assert(svc.capacity_providers[0] == "FARGATE_SPOT"@);
    } else {
        assert(spec.spec.capacity@ == "FARGATE"@);
        assert(svc.capacity_providers.len() == 0);
    }
    assert(got.spec =~= normal_service(spec@).spec);
    assert(got =~= normal_service(spec@));
}

/// The volume of a mount.
pub open spec fn mounted_volume(m: MountSpecView) -> Seq<char> {
    match m {
        MountSpecView::Volume(v) => v,
        MountSpecView::Detailed { source_volume, .. } => source_volume,
    }
}

/// Whether the maps of a specification are in order, as every map in memory is.
pub open spec fn maps_in_order(spec: Spec) -> bool {
    spec.containers matches Some(list) ==> forall|i: int|
        0 <= i < list@.len() ==> in_order(#[trigger] list@[i])
}

/// Containers that say the same, but for the form of what they say, wait for the
/// same containers.
proof fn lemma_same_graph(a: Seq<ContainerSpec>, b: Seq<ContainerSpec>)
    requires
        a.len() == b.len(),
        forall|i: int| 0 <= i < a.len() ==> normal_container((#[trigger] a[i])@) == b[i]@,
    ensures
        validate::container_names(a) == validate::container_names(b),
        validate::dependency_graph(a) == validate::dependency_graph(b),
        forall|i: int|
            0 <= i < a.len() ==> a[i].depends_on@.len() == (#[trigger] b[i]).depends_on@.len(),
        forall|i: int, k: int|
            0 <= i < a.len() && 0 <= k < a[i].depends_on@.len()
                ==> a[i].depends_on@[k].container_name@ == (
            #[trigger] b[i].depends_on@[k]).container_name@ && a[i].depends_on@[k].condition
                == b[i].depends_on@[k].condition,
{
    assert forall|i: int| 0 <= i < a.len() implies (#[trigger] a[i]).name@ == b[i].name@ by {
        assert(normal_container(a[i]@).name == b[i]@.name);
    }
    assert(validate::container_names(a) =~= validate::container_names(b));
    assert forall|i: int| 0 <= i < a.len() implies a[i].depends_on@.len() == (
    #[trigger] b[i]).depends_on@.len() by {
        assert(normal_container(a[i]@).depends_on == b[i]@.depends_on);
        assert(a[i]@.depends_on.len() == b[i]@.depends_on.len());
    }
    assert forall|i: int, k: int|
        0 <= i < a.len() && 0 <= k < a[i].depends_on@.len() implies a[i].depends_on@[k].container_name@
        == (#[trigger] b[i].depends_on@[k]).container_name@ && a[i].depends_on@[k].condition
        == b[i].depends_on@[k].condition by {
        assert(normal_container(a[i]@).depends_on == b[i]@.depends_on);
        assert(a[i]@.depends_on[k] == b[i]@.depends_on[k]);
    }
    let names = validate::container_names(a);
    assert(validate::dependency_graph(a) =~= validate::dependency_graph(b)) by {
        assert forall|i: int| 0 <= i < a.len() implies validate::dependency_graph(a)[i]
            == validate::dependency_graph(b)[i] by {
            assert(a[i].depends_on@.len() == b[i].depends_on@.len());
            assert(validate::dependency_graph(a)[i]
                =~= validate::dependency_graph(b)[i]) by {
                assert forall|k: int| 0 <= k < a[i].depends_on@.len() implies names.index_of(
                    a[i].depends_on@[k].container_name@,
                ) == names.index_of(b[i].depends_on@[k].container_name@) by {
                    assert(a[i].depends_on@[k].container_name@
                        == b[i].depends_on@[k].container_name@);
                }
            }
        }
    }
}

/// A container that says the same as a valid one, but for the form of what it
/// says, is valid too.
proof fn lemma_same_container(
    a: Seq<ContainerSpec>,
    b: Seq<ContainerSpec>,
    volumes: Seq<VolumeSpec>,
    others: Seq<VolumeSpec>,
    i: int,
)
    requires
        a.len() == b.len(),
        0 <= i < a.len(),
        forall|j: int| 0 <= j < a.len() ==> normal_container((#[trigger] a[j])@) == b[j]@,
        validate::volume_names(volumes) == validate::volume_names(others),
        in_order(a[i]),
        in_order(b[i]),
        validate::container_valid(a, volumes, a[i]),
    ensures
        validate::container_valid(b, others, b[i]),
{
    lemma_same_graph(a, b);
    let x = a[i];
    let y = b[i];
    assert(normal_container(x@) == y@);
    assert(x@.capabilities_drop == y@.capabilities_drop);
    if y.linux_parameters is Some {
        let kept = x.linux_parameters->0.capabilities_drop@;
        let dropped = y.linux_parameters->0.capabilities_drop@;
        assert(x@.capabilities_drop == Some(text::texts(kept)));
        assert(text::texts(kept) == text::texts(dropped));
        assert(text::texts(kept).len() == kept.len());
        assert(text::texts(dropped).len() == dropped.len());
        assert forall|k: int|
            0 <= k < dropped.len() implies apply::known_capabilities().contains(
            (#[trigger] dropped[k])@,
        ) by {
            assert(text::texts(kept)[k] == text::texts(dropped)[k]);
            assert(apply::known_capabilities().contains(kept[k]@));
        }
    }
    assert forall|k: int| 0 <= k < y.depends_on@.len() implies validate::dependency_valid(
        b,
        y,
        #[trigger] y.depends_on@[k],
    ) by {
        let d = x.depends_on@[k];
        let e = y.depends_on@[k];
        assert(b[i].depends_on@[k] == e);
        assert(d.container_name@ == e.container_name@ && d.condition == e.condition);
        assert(validate::dependency_valid(a, x, d));
        if validate::is_essential(b, e.container_name@) {
            let j = choose|j: int|
                0 <= j < b.len() && (#[trigger] b[j]).name@ == e.container_name@ && b[j].essential;
            assert(normal_container(a[j]@) == b[j]@);
            assert(a[j].name@ == b[j].name@ && a[j].essential == b[j].essential);
            assert(validate::is_essential(a, d.container_name@));
        }
    }
    assert forall|k: int| 0 <= k < y.mount_points.len_spec() implies validate::volume_names(
        others,
    ).contains((#[trigger] y.mount_points.value(k)).volume()) by {
        let path = y.mount_points.key(k);
        let m = y.mount_points.value(k);
        assert(y.mount_points@.contains_key(path) && y.mount_points@[path] == m);
        assert(y@.mount_points.contains_key(path) && y@.mount_points[path] == m@);
        assert(normal_container(x@).mount_points.contains_key(path));
        assert(x@.mount_points.contains_key(path));
        assert(x.mount_points@.contains_key(path));
        assert(x.mount_points.has(path));
        let j = choose|j: int|
            0 <= j < x.mount_points.len_spec() && #[trigger] x.mount_points.key(j) == path;
        let n = x.mount_points.value(j);
        assert(x.mount_points@[path] == n);
        assert(m@ == short_mount(n@));
        assert(m.volume() == mounted_volume(m@));
        assert(n.volume() == mounted_volume(n@));
        assert(validate::volume_names(volumes).contains(n.volume()));
    }
}

/// What is exported of an applied service can be applied again: a specification
/// that says what an export writes of a valid one is valid.
pub proof fn lemma_exported_is_accepted(spec: ServiceSpec, out: ServiceSpec)
    requires
        validate::first_problem(spec.spec) is None,
        out@ == normal_service(spec@),
        maps_in_order(spec.spec),
        maps_in_order(out.spec),
        spec.spec.containers matches Some(list) ==> list@.len() <= usize::MAX,
    ensures
        validate::first_problem(out.spec) is None,
{
    let before = spec.spec;
    let after = out.spec;
    assert(after@ == normal_service(spec@).spec);
    if after.containers is Some {
        assert(after@.containers is Some);
        let b = after.containers->0@;
        let a = before.containers->0@;
        assert(before@.containers is Some);
        let all = a.map_values(|c: ContainerSpec| c@);
        let normal = all.map_values(|c: ContainerSpecView| normal_container(c));
        assert(b.map_values(|c: ContainerSpec| c@) == normal);
        assert(a.len() == b.len()) by {
            assert(b.map_values(|c: ContainerSpec| c@).len() == b.len());
        }
        validate::lemma_accepts_exactly_valid(before);
        validate::lemma_accepts_exactly_valid(after);
        assert forall|j: int| 0 <= j < a.len() implies normal_container((#[trigger] a[j])@)
            == b[j]@ by {
            assert(normal[j] == b.map_values(|c: ContainerSpec| c@)[j]);
        }
        lemma_same_graph(a, b);
        lemma_same_volumes(before.volumes@, after.volumes@);
        let i = choose|i: int| 0 <= i < a.len() && (#[trigger] a[i]).essential;
        assert(normal_container(a[i]@) == b[i]@);
        assert(b[i].essential);
        assert forall|j: int| 0 <= j < b.len() implies validate::container_valid(
            b,
            after.volumes@,
            #[trigger] b[j],
        ) by {
            assert(validate::container_valid(a, before.volumes@, a[j]));
            assert(in_order(a[j]) && in_order(b[j]));
            lemma_same_container(a, b, before.volumes@, after.volumes@, j);
        }
    } else {
        assert(after@.containers is None);
        validate::lemma_accepts_exactly_valid(before);
        validate::lemma_accepts_exactly_valid(after);
    }
}

proof fn lemma_same_volumes(a: Seq<VolumeSpec>, b: Seq<VolumeSpec>)
    requires
        a.map_values(|v: VolumeSpec| v@) == b.map_values(|v: VolumeSpec| v@),
    ensures
        validate::volume_names(a) == validate::volume_names(b),
{
    let x = a.map_values(|v: VolumeSpec| v@);
    let y = b.map_values(|v: VolumeSpec| v@);
    assert(x.len() == a.len() && y.len() == b.len());
    assert forall|i: int| 0 <= i < a.len() implies (#[trigger] a[i]).name@ == b[i].name@ by {
        assert(x[i].name == y[i].name);
    }
    assert(validate::volume_names(a) =~= validate::volume_names(b));
}

/// Exporting what was applied from an export gives the same export again.
pub proof fn lemma_normal_is_stable(spec: ServiceSpecView)
    ensures
        normal_service(normal_service(spec)) == normal_service(spec),
{
    let once = normal_service(spec);
    match once.spec.containers {
        Some(list) => {
            let old = spec.spec.containers->0;
            assert(list == old.map_values(|c: ContainerSpecView| normal_container(c)));
            assert forall|i: int| 0 <= i < list.len() implies normal_container(#[trigger] list[i])
                == list[i] by {
                assert(list[i] == normal_container(old[i]));
                assert(normal_container(list[i]).mount_points =~= list[i].mount_points);
            }
            assert(list.map_values(|c: ContainerSpecView| normal_container(c)) =~= list);
            if list.len() == 1 {
                assert(needs_list(old[0]));
                assert(list[0] == normal_container(old[0]));
                if exists|path: Seq<char>| old[0].mount_points.contains_key(path) {
                    let path = choose|path: Seq<char>| old[0].mount_points.contains_key(path);
                    assert(list[0].mount_points.contains_key(path));
                }
                assert(needs_list(list[0]));
            }
        },
        None => {},
    }
    assert(normal_service(once) =~= once);
}

/// The mounts of an export are in the short form where that says the same.
proof fn lemma_exported_mounts_are_short(list: Seq<MountPointView>)
    ensures
        forall|path: Seq<char>| #[trigger]
            export::exported_mounts(list).contains_key(path) ==> short_mount(
                export::exported_mounts(list)[path],
            ) == export::exported_mounts(list)[path],
    decreases list.len(),
{
    if list.len() > 0 {
        lemma_exported_mounts_are_short(list.drop_last());
    }
}

/// An export of a container is in the form that an export writes it.
proof fn lemma_exported_is_normal(cd: ContainerView)
    requires
        export::exported_container(cd) is Ok,
    ensures
        normal_container(export::exported_container(cd)->Ok_0) == export::exported_container(
            cd,
        )->Ok_0,
{
    let c = export::exported_container(cd)->Ok_0;
    lemma_exported_mounts_are_short(cd.mount_points);
    assert(normal_container(c).mount_points =~= c.mount_points);
}

/// What is known of a container after its export was applied: exporting it again
/// gives the same. So its user, its read-only file systems, the capabilities that
/// it gave up and the containers that it waits for are what the export said.
pub proof fn lemma_container_survives(
    cd: ContainerView,
    out: ContainerSpec,
    service: Seq<char>,
    region: Seq<char>,
)
    requires
        export::exported_container(cd) == Ok::<ContainerSpecView, export::Problem>(out@),
        in_order(out),
    ensures
        task::define_result(out, service, region) is Ok,
        export::exported_container(task::define_result(out, service, region)->Ok_0)
            == export::exported_container(cd),
{
    lemma_exported_is_normal(cd);
    lemma_exported_container_is_acceptable(cd);
    assert forall|i: int| 0 <= i < out.depends_on@.len() implies (
    #[trigger] out.depends_on@[i]).condition != DependsOnCondition::Healthy by {
        assert(out@.depends_on[i].1 == out.depends_on@[i].condition);
    }
    lemma_none_healthy(out.depends_on@, 0);
    if out.linux_parameters is Some {
        let dropped = out.linux_parameters->0.capabilities_drop@;
        assert(out@.capabilities_drop == Some(text::texts(dropped)));
        assert forall|i: int| 0 <= i < dropped.len() implies apply::known_capabilities().contains(
            (#[trigger] dropped[i])@,
        ) by {
            let all = export::exported_container(cd)->Ok_0.capabilities_drop->0;
            assert(all == text::texts(dropped));
            assert(all.len() == dropped.len());
            assert(all[i] == dropped[i]@);
            assert(apply::known_capabilities().contains(all[i]));
        }
    }
    lemma_container_round_trip(out, service, region);
}

proof fn lemma_none_healthy(list: Seq<DependsOn>, i: int)
    requires
        0 <= i <= list.len(),
        forall|j: int|
            0 <= j < list.len() ==> (#[trigger] list[j]).condition != DependsOnCondition::Healthy,
    ensures
        task::first_healthy(list, i) == list.len(),
    decreases list.len() - i,
{
    if i < list.len() {
        lemma_none_healthy(list, i + 1);
    }
}

proof fn lemma_exported_volumes_are(list: Seq<VolumeView>, n: int)
    requires
        0 <= n <= list.len(),
        export::exported_volumes(list, n) is Ok,
    ensures
        export::exported_volumes(list, n)->Ok_0.len() == n,
        forall|i: int|
            0 <= i < n ==> export::exported_volume(list[i]) == Ok::<
                apply::VolumeSpecView,
                export::Problem,
            >(#[trigger] export::exported_volumes(list, n)->Ok_0[i]),
    decreases n,
{
    if n > 0 {
        lemma_exported_volumes_are(list, n - 1);
    }
}

proof fn lemma_exported_containers_are(list: Seq<ContainerView>, n: int)
    requires
        0 <= n <= list.len(),
        export::exported_containers(list, n) is Ok,
    ensures
        export::exported_containers(list, n)->Ok_0.len() == n,
        forall|i: int|
            0 <= i < n ==> export::exported_container(list[i]) == Ok::<
                ContainerSpecView,
                export::Problem,
            >(#[trigger] export::exported_containers(list, n)->Ok_0[i]),
    decreases n,
{
    if n > 0 {
        lemma_exported_containers_are(list, n - 1);
    }
}

proof fn lemma_apps_are_not_added(list: Seq<ContainerView>)
    ensures
        forall|i: int|
            0 <= i < export::app_containers(list).len() ==> !container::is_service_connect(
                #[trigger] export::app_containers(list)[i],
            ),
    decreases list.len(),
{
    if list.len() > 0 {
        let before = export::app_containers(list.drop_last());
        lemma_apps_are_not_added(list.drop_last());
        assert forall|i: int|
            0 <= i < export::app_containers(list).len() implies !container::is_service_connect(
            #[trigger] export::app_containers(list)[i],
        ) by {
            if i < before.len() {
                assert(export::app_containers(list)[i] == before[i]);
            }
        }
    }
}

/// The name of an exported container is not taken for one that ECS added.
proof fn lemma_exported_name(cd: ContainerView)
    requires
        !container::is_service_connect(cd),
    ensures
        !"ecs-service-connect-"@.is_prefix_of(export::exported_name(cd)),
{
    reveal_strlit("ecs-service-connect-");
    reveal_strlit("app");
}

/// Whether a specification that lists its containers has to.
pub open spec fn lists_with_reason(spec: SpecView) -> bool {
    spec.containers matches Some(list) ==> list.len() > 1 || needs_list(list[0])
}

/// An export that can be applied is exported the same once it has been applied,
/// as long as ECS describes the service and its task definition as they were
/// requested. (A list of one container that could be described directly, because
/// what asked for the list could not be expressed, is described directly then.)
pub proof fn lemma_export_survives(
    cluster: Seq<char>,
    service: Seq<char>,
    svc: ServiceView,
    td: TaskDefinitionView,
    out: ServiceSpec,
    region: Seq<char>,
    arn: Seq<char>,
)
    requires
        export::export_result(cluster, service, svc, td) == Ok::<
            ServiceSpecView,
            export::Problem,
        >(out@),
        validate::first_problem(out.spec) is None,
        lists_with_reason(out.spec@),
        out.spec.env.ordered(),
        out.spec.secrets.ordered(),
        maps_in_order(out.spec),
    ensures
        export::export_result(
            cluster,
            service,
            service_as_requested(task::service_request_view(out, arn, false)),
            task::registration(out, region)->Ok_0,
        ) == Ok::<ServiceSpecView, export::Problem>(out@),
{
    let volumes = export::exported_volumes(td.volumes, td.volumes.len() as int)->Ok_0;
    let apps = export::app_containers(td.container_definitions);
    let part = export::exported_part(apps)->Ok_0;
    let spec = out.spec;
    assert(out@ == export::exported_service(cluster, service, svc, td, volumes, part));
    lemma_exported_volumes_are(td.volumes, td.volumes.len() as int);
    assert forall|i: int| 0 <= i < spec.volumes@.len() implies exportable_volume(
        #[trigger] spec.volumes@[i],
    ) by {
        assert(spec@.volumes.len() == spec.volumes@.len());
        assert(spec@.volumes[i] == spec.volumes@[i]@);
        assert(volumes[i] == spec.volumes@[i]@);
        assert(export::exported_volume(td.volumes[i]) == Ok::<
            apply::VolumeSpecView,
            export::Problem,
        >(volumes[i]));
    }
    lemma_apps_are_not_added(td.container_definitions);
    if spec.containers is Some {
        let list = spec.containers->0@;
        let all = export::exported_containers(apps, apps.len() as int)->Ok_0;
        assert(spec@.containers == Some(all));
        assert(all == list.map_values(|c: ContainerSpec| c@));
        lemma_exported_containers_are(apps, apps.len() as int);
        assert(all.len() == list.len());
        assert forall|i: int| 0 <= i < list.len() implies exportable_container(
            #[trigger] list[i],
        ) && normal_container(all[i]) == all[i] by {
            assert(all[i] == list[i]@);
            assert(export::exported_container(apps[i]) == Ok::<ContainerSpecView, export::Problem>(
                all[i],
            ));
            lemma_exported_is_normal(apps[i]);
            lemma_exported_container_is_acceptable(apps[i]);
            lemma_exported_name(apps[i]);
            assert(list[i].name@ == export::exported_name(apps[i]));
            if list[i].linux_parameters is Some {
                let dropped = list[i].linux_parameters->0.capabilities_drop@;
                assert(all[i].capabilities_drop == Some(text::texts(dropped)));
                assert forall|k: int|
                    0 <= k < dropped.len() implies apply::known_capabilities().contains(
                    (#[trigger] dropped[k])@,
                ) by {
                    let shown = all[i].capabilities_drop->0;
                    assert(shown.len() == dropped.len());
                    assert(shown[k] == dropped[k]@);
                    assert(apply::known_capabilities().contains(shown[k]));
                }
            }
            assert(in_order(list[i]));
        }
        assert(all.map_values(|c: ContainerSpecView| normal_container(c)) =~= all);
    } else {
        assert(part == export::flat(apps[0]));
        lemma_exported_name(apps[0]);
        assert(spec@.container_name == Some(export::exported_name(apps[0])));
    }
    assert(exportable(spec));
    lemma_service_round_trip(out, region, arn);
    assert(normal_service(out@) =~= out@);
    assert(out.metadata.cluster@ == cluster);
    assert(out.metadata.name@ == service);
}

/// A service that was updated from a valid specification is exported with everything that
/// the specification says, except for the network, which stays what it was: ECS describes
/// the service as it was requested, and its task definition as it was registered.
pub proof fn lemma_updated_service_round_trip(
    spec: ServiceSpec,
    region: Seq<char>,
    arn: Seq<char>,
    svc: ServiceView,
)
    requires
        validate::first_problem(spec.spec) is None,
        exportable(spec.spec),
        svc.desired_count == task::service_request_view(spec, arn, true).desired_count,
        svc.enable_execute_command == task::service_request_view(
            spec,
            arn,
            true,
        ).enable_execute_command,
        svc.capacity_providers == task::service_request_view(
            spec,
            arn,
            true,
        ).capacity_provider_strategy.map_values(|c: (Seq<char>, i32)| c.0),
    ensures
        export::export_result(
            spec.metadata.cluster@,
            spec.metadata.name@,
            svc,
            task::registration(spec, region)->Ok_0,
        ) matches Ok(out) && {
            &&& out.name == spec.metadata.name@
            &&& out.cluster == spec.metadata.cluster@
            &&& out.spec.desired_count == spec.spec.desired_count
            &&& out.spec.exec_enabled == spec.spec.exec_enabled
            &&& out.spec.capacity == spec.spec.capacity@
            &&& out.spec.cpu == spec.spec.cpu@
            &&& out.spec.memory == spec.spec.memory@
            &&& out.spec.arch == spec.spec.arch@
            &&& out.spec == (SpecView {
                subnets: out.spec.subnets,
                security_groups: out.spec.security_groups,
                assign_public_ip: out.spec.assign_public_ip,
                ..normal_service(spec@).spec
            })
        },
{
    lemma_valid_is_registered(spec, region);
    let td = task::registration(spec, region)->Ok_0;
    let volumes = spec.spec.volumes@;
    lemma_volumes_back(volumes, volumes.len() as int);
    let kept = volumes.map_values(|v: VolumeSpec| v@);
    assert(kept.take(volumes.len() as int) =~= kept);
    lemma_part_back(spec.spec, spec.metadata.name@, region);
    let part = normal_part(spec@.spec);
    let got = export::exported_service(
        spec.metadata.cluster@,
        spec.metadata.name@,
        svc,
        td,
        kept,
        part,
    );
    if spec.spec.capacity@ == "FARGATE_SPOT"@ {
        assert(svc.capacity_providers[0] == "FARGATE_SPOT"@);
    } else {
        assert(spec.spec.capacity@ == "FARGATE"@);
        assert(svc.capacity_providers.len() == 0);
    }
    assert(got.spec =~= SpecView {
        subnets: got.spec.subnets,
        security_groups: got.spec.security_groups,
        assign_public_ip: got.spec.assign_public_ip,
        ..normal_service(spec@).spec
    });
}

} // verus!
