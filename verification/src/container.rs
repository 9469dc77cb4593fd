//! Which container of a task runs the application.

use crate::ecs::{ContainerDefinition, ContainerView};
use crate::text;
use vstd::prelude::*;

verus! {

/// How the names of containers begin that do not run an application.
pub open spec fn infra_prefixes() -> Seq<Seq<char>> {
    seq![
        "ecs-service-connect-"@,
        "aws-guardduty-agent"@,
        "datadog-agent"@,
        "xray-daemon"@,
        "envoy"@,
        "tailscale"@,
        "cloudflared"@,
        "ts-sidecar"@,
    ]
}

/// Whether a container is known not to run an application.
pub open spec fn is_infra(cd: ContainerView) -> bool {
    exists|i: int|
        0 <= i < infra_prefixes().len() && (#[trigger] infra_prefixes()[i]).is_prefix_of(
            match cd.name {
                Some(name) => name,
                None => ""@,
            },
        )
}

/// Whether a container is essential.
pub open spec fn is_essential(cd: ContainerView) -> bool {
    cd.essential == Some(true)
}

/// Whether a container waits for another one.
pub open spec fn waits(cd: ContainerView) -> bool {
    cd.depends_on.len() > 0
}

/// How well a container suits as the application among several that are not
/// known to be something else; the lowest rank suits best. The application is
/// the essential container that waits for the others; or else an essential one,
/// preferably one whose output is logged; or else one that waits for nothing.
pub open spec fn rank(cd: ContainerView) -> int {
    if is_essential(cd) && waits(cd) {
        0
    } else if is_essential(cd) && cd.log_configuration is Some {
        1
    } else if is_essential(cd) {
        2
    } else if !waits(cd) {
        3
    } else {
        4
    }
}

/// Whether the container at a place is the one that runs the application: the
/// first of those that suit best among the containers that are not known to be
/// something else, or the very first where all of them are.
pub open spec fn is_main(list: Seq<ContainerView>, p: int) -> bool {
    &&& 0 <= p < list.len()
    &&& if forall|i: int| 0 <= i < list.len() ==> is_infra(#[trigger] list[i]) {
        p == 0
    } else {
        &&& !is_infra(list[p])
        &&& forall|i: int|
            0 <= i < list.len() && !is_infra(#[trigger] list[i]) ==> rank(list[p]) < rank(list[i])
                || (rank(list[p]) == rank(list[i]) && p <= i)
    }
}

/// What a list of containers says.
pub open spec fn views(list: Seq<ContainerDefinition>) -> Seq<ContainerView> {
    list.map_values(|c: ContainerDefinition| c@)
}

fn is_infra_container(cd: &ContainerDefinition) -> (r: bool)
    ensures
        r == is_infra(cd@),
{
    let name = match &cd.name {
        Some(name) => name.as_str(),
        None => "",
    };
    let prefixes: [&str; 8] = [
        "ecs-service-connect-",
        "aws-guardduty-agent",
        "datadog-agent",
        "xray-daemon",
        "envoy",
        "tailscale",
        "cloudflared",
        "ts-sidecar",
    ];
    let ghost all = prefixes@.map_values(|s: &str| s@);
    assert(all =~= infra_prefixes());
    let mut i: usize = 0;
    while i < 8
        invariant
            i <= 8,
            prefixes@.len() == 8,
            all == prefixes@.map_values(|s: &str| s@),
            all == infra_prefixes(),
            forall|j: int| 0 <= j < i ==> !(#[trigger] all[j]).is_prefix_of(name@),
            name@ == (match cd@.name {
                Some(name) => name,
                None => ""@,
            }),
        decreases 8 - i,
    {
        assert(all[i as int] == prefixes@[i as int]@);
        if text::starts_with(name, prefixes[i]) {
            assert(infra_prefixes()[i as int].is_prefix_of(name@));
            return true;
        }
        i = i + 1;
    }
    false
}

fn rank_of(cd: &ContainerDefinition) -> (r: u8)
    ensures
        r == rank(cd@),
{
    let essential = match cd.essential {
        Some(b) => b,
        None => false,
    };
    let waiting = cd.depends_on.len() > 0;
    if essential && waiting {
        0
    } else if essential && cd.log_configuration.is_some() {
        1
    } else if essential {
        2
    } else if !waiting {
        3
    } else {
        4
    }
}

/// Finds the container that runs the application.
pub fn find_main_container(containers: &Vec<ContainerDefinition>) -> (r: Option<
    &ContainerDefinition,
>)
    ensures
        match r {
            Some(cd) => exists|p: int| #[trigger]
                is_main(views(containers@), p) && *cd == containers@[p],
            None => containers@.len() == 0,
        },
{
    let ghost all = views(containers@);
    if containers.len() == 0 {
        return None;
    }
    let mut best: usize = 0;
    let mut best_rank: u8 = 5;
    let mut i: usize = 0;
    while i < containers.len()
        invariant
            i <= containers@.len(),
            all == views(containers@),
            best < containers@.len(),
            best_rank == 5 ==> best == 0,
            best_rank == 5 <==> forall|j: int| 0 <= j < i ==> is_infra(#[trigger] all[j]),
            best_rank < 5 ==> best < i && !is_infra(all[best as int]) && best_rank == rank(
                all[best as int],
            ),
            forall|j: int|
                0 <= j < i && !is_infra(#[trigger] all[j]) ==> best_rank < rank(all[j]) || (
                best_rank == rank(all[j]) && best <= j),
        decreases containers@.len() - i,
    {
        let cd = &containers[i];
        assert(all[i as int] == cd@);
        if !is_infra_container(cd) {
            let r = rank_of(cd);
            if r < best_rank {
                best = i;
                best_rank = r;
            }
        }
        i = i + 1;
    }
    assert(is_main(all, best as int));
    Some(&containers[best])
}

/// At most one container runs the application.
pub proof fn lemma_one_main(list: Seq<ContainerView>, p: int, q: int)
    requires
        is_main(list, p),
        is_main(list, q),
    ensures
        p == q,
{
}

/// Whether ECS put a container next to those of the service.
pub open spec fn is_service_connect(cd: ContainerView) -> bool {
    cd.name matches Some(name) && "ecs-service-connect-"@.is_prefix_of(name)
}

/// The place of the first container of the service itself, from place `i` on;
/// the number of containers where there is none.
pub open spec fn app_place(list: Seq<ContainerView>, i: int) -> int
    decreases list.len() - i,
{
    if i < 0 || i >= list.len() {
        list.len() as int
    } else if !is_service_connect(list[i]) {
        i
    } else {
        app_place(list, i + 1)
    }
}

/// Finds the first container of the service itself.
pub fn find_app_container(list: &Vec<ContainerDefinition>) -> (r: Option<&ContainerDefinition>)
    ensures
        match r {
            Some(cd) => 0 <= app_place(views(list@), 0) < list@.len() && *cd == list@[app_place(
                views(list@),
                0,
            )],
            None => app_place(views(list@), 0) == list@.len(),
        },
{
    let ghost all = views(list@);
    let mut i: usize = 0;
    while i < list.len()
        invariant
            i <= list@.len(),
            all == views(list@),
            app_place(all, 0) == app_place(all, i as int),
        decreases list@.len() - i,
    {
        assert(all[i as int] == list@[i as int]@);
        let sidecar = match &list[i].name {
            Some(name) => text::starts_with(name.as_str(), "ecs-service-connect-"),
            None => false,
        };
        if !sidecar {
            return Some(&list[i]);
        }
        i = i + 1;
    }
    None
}

/// A container is known not to run an application exactly if its name begins like
/// that of a proxy, an agent or a tunnel.
pub proof fn lemma_infra_names(cd: ContainerView)
    ensures
        is_infra(cd) <==> (cd.name matches Some(name) && {
            ||| "ecs-service-connect-"@.is_prefix_of(name)
            ||| "aws-guardduty-agent"@.is_prefix_of(name)
            ||| "datadog-agent"@.is_prefix_of(name)
            ||| "xray-daemon"@.is_prefix_of(name)
            ||| "envoy"@.is_prefix_of(name)
            ||| "tailscale"@.is_prefix_of(name)
            ||| "cloudflared"@.is_prefix_of(name)
            ||| "ts-sidecar"@.is_prefix_of(name)
        }),
{
    let all = infra_prefixes();
    reveal_strlit("");
    reveal_strlit("ecs-service-connect-");
    reveal_strlit("aws-guardduty-agent");
    reveal_strlit("datadog-agent");
    reveal_strlit("xray-daemon");
    reveal_strlit("envoy");
    reveal_strlit("tailscale");
    reveal_strlit("cloudflared");
    reveal_strlit("ts-sidecar");
    assert(all.len() == 8);
    if let Some(name) = cd.name {
        assert(all[0].is_prefix_of(name) || all[1].is_prefix_of(name) || all[2].is_prefix_of(name)
            || all[3].is_prefix_of(name) || all[4].is_prefix_of(name) || all[5].is_prefix_of(name)
            || all[6].is_prefix_of(name) || all[7].is_prefix_of(name) ==> is_infra(cd));
    } else {
        assert forall|i: int| 0 <= i < all.len() implies !(#[trigger] all[i]).is_prefix_of(""@) by {
            assert(all[i].len() > 0);
        }
    }
}

/// Where some container that is not known to be something else is essential and waits
/// for others, the application is the first such one.
pub proof fn lemma_main_waits(list: Seq<ContainerView>, p: int)
    requires
        is_main(list, p),
        exists|i: int|
            0 <= i < list.len() && !is_infra(#[trigger] list[i]) && list[i].essential == Some(true)
                && list[i].depends_on.len() > 0,
    ensures
        !is_infra(list[p]),
        list[p].essential == Some(true),
        list[p].depends_on.len() > 0,
        forall|i: int|
            0 <= i < p && !is_infra(#[trigger] list[i]) && list[i].essential == Some(true)
                ==> list[i].depends_on.len() == 0,
{
}

/// Where no such container waits, but one is essential and logs, the application is the
/// first such one.
pub proof fn lemma_main_logs(list: Seq<ContainerView>, p: int)
    requires
        is_main(list, p),
        forall|i: int|
            0 <= i < list.len() && !is_infra(#[trigger] list[i]) && list[i].essential == Some(true)
                ==> list[i].depends_on.len() == 0,
        exists|i: int|
            0 <= i < list.len() && !is_infra(#[trigger] list[i]) && list[i].essential == Some(true)
                && list[i].log_configuration is Some,
    ensures
        !is_infra(list[p]),
        list[p].essential == Some(true),
        list[p].log_configuration is Some,
        forall|i: int|
            0 <= i < p && !is_infra(#[trigger] list[i]) && list[i].essential == Some(true)
                ==> list[i].log_configuration is None,
{
}

/// Where essential containers neither wait nor log, the application is the first of
/// them.
pub proof fn lemma_main_is_essential(list: Seq<ContainerView>, p: int)
    requires
        is_main(list, p),
        forall|i: int|
            0 <= i < list.len() && !is_infra(#[trigger] list[i]) && list[i].essential == Some(true)
                ==> list[i].depends_on.len() == 0 && list[i].log_configuration is None,
        exists|i: int|
            0 <= i < list.len() && !is_infra(#[trigger] list[i]) && list[i].essential == Some(true),
    ensures
        !is_infra(list[p]),
        list[p].essential == Some(true),
        forall|i: int|
            0 <= i < p && !is_infra(#[trigger] list[i]) ==> list[i].essential != Some(true),
{
}

/// Without an essential container, the application is the first that waits for nothing,
/// or the first at all that is not known to be something else.
pub proof fn lemma_main_without_essential(list: Seq<ContainerView>, p: int)
    requires
        is_main(list, p),
        forall|i: int|
            0 <= i < list.len() && !is_infra(#[trigger] list[i]) ==> list[i].essential != Some(
                true,
            ),
        exists|i: int| 0 <= i < list.len() && !is_infra(#[trigger] list[i]),
    ensures
        !is_infra(list[p]),
        (exists|i: int|
            0 <= i < list.len() && !is_infra(#[trigger] list[i]) && list[i].depends_on.len() == 0)
            ==> list[p].depends_on.len() == 0 && forall|i: int|
            0 <= i < p && !is_infra(#[trigger] list[i]) ==> list[i].depends_on.len() > 0,
        (forall|i: int|
            0 <= i < list.len() && !is_infra(#[trigger] list[i]) ==> list[i].depends_on.len() > 0)
            ==> forall|i: int| 0 <= i < p ==> is_infra(#[trigger] list[i]),
{
}

/// Where all containers are known to be something else, the first is taken.
pub proof fn lemma_main_of_infra(list: Seq<ContainerView>, p: int)
    requires
        is_main(list, p),
        forall|i: int| 0 <= i < list.len() ==> is_infra(#[trigger] list[i]),
    ensures
        p == 0,
{
}

/// The first container of the service itself is the first whose name does not begin
/// like that of one that ECS puts there.
pub proof fn lemma_app_is_first(list: Seq<ContainerView>)
    ensures
        0 <= app_place(list, 0) <= list.len(),
        forall|i: int|
            0 <= i < app_place(list, 0) ==> ((#[trigger] list[i]).name matches Some(name)
                && "ecs-service-connect-"@.is_prefix_of(name)),
        app_place(list, 0) < list.len() ==> (list[app_place(list, 0)].name matches Some(name)
            ==> !"ecs-service-connect-"@.is_prefix_of(name)),
{
    lemma_app_from(list, 0);
}

proof fn lemma_app_from(list: Seq<ContainerView>, i: int)
    requires
        0 <= i <= list.len(),
    ensures
        i <= app_place(list, i) <= list.len(),
        forall|j: int|
            i <= j < app_place(list, i) ==> ((#[trigger] list[j]).name matches Some(name)
                && "ecs-service-connect-"@.is_prefix_of(name)),
        app_place(list, i) < list.len() ==> (list[app_place(list, i)].name matches Some(name)
            ==> !"ecs-service-connect-"@.is_prefix_of(name)),
    decreases list.len() - i,
{
    if i < list.len() && is_service_connect(list[i]) {
        lemma_app_from(list, i + 1);
    }
}

} // verus!
