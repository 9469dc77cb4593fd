//! Short names for services: keeping them, listing them, and finding the task
//! behind one.

use crate::config;
use crate::config::Config;
use crate::error::Error;
use crate::instant;
use crate::instant::Instant;
use crate::text;
use crate::text::same;
use vstd::prelude::*;

verus! {

/// A setting of something that is attached to a task.
#[derive(Debug)]
pub struct AttachmentDetail {
    pub name: Option<String>,
    pub value: Option<String>,
}

/// A container of a task.
#[derive(Debug)]
pub struct TaskContainer {
    pub name: Option<String>,
    pub last_status: Option<String>,
    pub image: Option<String>,
}

/// A task, as ECS describes it.
#[derive(Debug)]
pub struct Task {
    pub task_arn: Option<String>,
    pub last_status: Option<String>,
    pub health_status: Option<String>,
    pub started_at: Option<Instant>,
    pub cpu: Option<String>,
    pub memory: Option<String>,
    pub task_definition_arn: Option<String>,
    pub capacity_provider_name: Option<String>,
    pub platform_version: Option<String>,
    pub availability_zone: Option<String>,
    pub connectivity: Option<String>,
    pub enable_execute_command: bool,
    /// The settings of each thing that is attached to the task.
    pub attachments: Vec<Vec<AttachmentDetail>>,
    pub containers: Vec<TaskContainer>,
}

/// What can keep a short name from being resolved.
#[derive(Debug, Clone, Copy, PartialEq, Eq, Structural)]
pub enum ResolveProblem {
    InvalidAlias,
    NoTasks,
    NoRunningTask,
    NoArn,
    NoAppContainer,
}

/// A problem and the message that explains it.
pub type Problem = (ResolveProblem, Seq<char>);

impl Config {
    /// Lets a short name stand for a target.
    pub fn set_alias(&mut self, name: &str, target: &str)
        ensures
            final(self).aliases@.dom() == old(self).aliases@.dom().insert(name@),
            final(self).aliases@[name@]@ == target@,
            forall|other: Seq<char>|
                other != name@ && #[trigger] old(self).aliases@.contains_key(other)
                    ==> final(self).aliases@[other] == old(self).aliases@[other],
            final(self).bucket == old(self).bucket,
            final(self).presign_expiry == old(self).presign_expiry,
            final(self).cluster == old(self).cluster,
            final(self).groups == old(self).groups,
            final(self).scheduler == old(self).scheduler,
    {
        self.aliases.insert(String::from_str(name), String::from_str(target));
    }

    /// Forgets a short name. Tells whether it was known.
    pub fn remove_alias(&mut self, name: &str) -> (r: bool)
        ensures
            r == old(self).aliases@.contains_key(name@),
            final(self).aliases@ == old(self).aliases@.remove(name@),
            final(self).bucket == old(self).bucket,
            final(self).presign_expiry == old(self).presign_expiry,
            final(self).cluster == old(self).cluster,
            final(self).groups == old(self).groups,
            final(self).scheduler == old(self).scheduler,
    {
        self.aliases.remove(name).is_some()
    }
}

/// A short name that was set to a cluster and a service is resolved to them.
pub proof fn lemma_alias_is_resolved(
    cfg: Config,
    name: Seq<char>,
    cluster: Seq<char>,
    service: Seq<char>,
)
    requires
        cfg.aliases@.contains_key(name),
        cfg.aliases@[name]@ == cluster + "/"@ + service,
        !cluster.contains('/'),
        !service.contains('/'),
    ensures
        cfg.alias_result(name) == Ok::<(Seq<char>, Seq<char>), config::Problem>(
            (cluster, service),
        ),
{
    reveal_strlit("/");
    let target = cluster + "/"@ + service;
    let n = cluster.len() as int;
    assert(target[n] == '/');
    assert forall|j: int| 0 <= j < n implies target[j] != '/' by {
        assert(target[j] == cluster[j]);
        assert(cluster.contains(cluster[j]));
    }
    text::lemma_position_is(target, '/', n);
    assert(target.contains('/'));
    assert(target.take(n) =~= cluster);
    assert(target.skip(n + 1) =~= service);
    reveal_with_fuel(text::split_at_most, 3);
    let parts = text::split_at_most(target, 4, '/');
    assert(parts =~= seq![cluster, service]);
}

/// The line for a short name in a list of them.
pub fn list_line(name: &str, target: &str) -> (r: String)
    ensures
        r@ == text::padded(name@, 20) + " → "@ + target@,
{
    let mut line = String::new();
    text::push_padded(&mut line, name, 20);
    assert(line@ =~= text::padded(name@, 20));
    line.append(" → ");
    line.append(target);
    line
}

/// How a short name is written where a target is expected.
#[verifier::ext_equal]
pub enum ResolutionView {
    /// It is the target.
    Target(Seq<char>),
    /// The newest task of a service is to be looked up; its container, if one is
    /// named.
    NewestTask { cluster: Seq<char>, service: Seq<char>, container: Option<Seq<char>> },
    Refused(Problem),
}

/// What a short name, or a target, comes to. A short name stands for
/// `cluster/service[/container[/task]]`, a target is
/// `cluster/task/container`.
pub open spec fn resolution(cfg: Config, name: Seq<char>) -> ResolutionView {
    if !cfg.aliases@.contains_key(name) {
        ResolutionView::Target(name)
    } else {
        let target = cfg.aliases@[name]@;
        let parts = text::split_at_most(target, 4, '/');
        if parts.len() == 4 {
            ResolutionView::Target(parts[0] + "/"@ + parts[3] + "/"@ + parts[2])
        } else if parts.len() == 3 {
            ResolutionView::NewestTask {
                cluster: parts[0],
                service: parts[1],
                container: Some(parts[2]),
            }
        } else if parts.len() == 2 {
            ResolutionView::NewestTask { cluster: parts[0], service: parts[1], container: None }
        } else {
            ResolutionView::Refused(
                (
                    ResolveProblem::InvalidAlias,
                    "invalid alias target: '"@ + target
                        + "' (expected cluster/service[/container[/task_id]])"@,
                ),
            )
        }
    }
}

/// What a short name, or a target, comes to.
#[derive(Debug)]
pub enum Resolution {
    Target(String),
    NewestTask { cluster: String, service: String, container: Option<String> },
    Refused(Error<ResolveProblem>),
}

impl View for Resolution {
    type V = ResolutionView;

    open spec fn view(&self) -> ResolutionView {
        match self {
            Resolution::Target(s) => ResolutionView::Target(s@),
            Resolution::NewestTask { cluster, service, container } => ResolutionView::NewestTask {
                cluster: cluster@,
                service: service@,
                container: text::opt_text(*container),
            },
            Resolution::Refused(e) => ResolutionView::Refused(e@),
        }
    }
}

/// Writes a target.
pub fn target_text(cluster: &str, task: &str, container: &str) -> (r: String)
    ensures
        r@ == cluster@ + "/"@ + task@ + "/"@ + container@,
{
    let mut s = String::from_str(cluster);
    s.append("/");
    s.append(task);
    s.append("/");
    s.append(container);
    s
}

/// Resolves a short name as far as the user's settings go. What is not a short
/// name is taken for a target.
pub fn resolve(cfg: &Config, alias_or_target: &str) -> (r: Resolution)
    ensures
        r@ == resolution(*cfg, alias_or_target@),
{
    let target = match cfg.aliases.get(alias_or_target) {
        Some(t) => t.as_str(),
        None => {
            return Resolution::Target(String::from_str(alias_or_target));
        },
    };
    let parts = text::splitn(target, 4, '/');
    let ghost all = text::slices(parts@);
    assert(all == text::split_at_most(target@, 4, '/'));
    assert forall|i: int| 0 <= i < all.len() implies #[trigger] all[i] == parts@[i]@ by {}
    if parts.len() == 4 {
        Resolution::Target(target_text(parts[0], parts[3], parts[2]))
    } else if parts.len() == 3 {
        Resolution::NewestTask {
            cluster: String::from_str(parts[0]),
            service: String::from_str(parts[1]),
            container: Some(String::from_str(parts[2])),
        }
    } else if parts.len() == 2 {
        Resolution::NewestTask {
            cluster: String::from_str(parts[0]),
            service: String::from_str(parts[1]),
            container: None,
        }
    } else {
        let mut m = String::from_str("invalid alias target: '");
        m.append(target);
        m.append("' (expected cluster/service[/container[/task_id]])");
        Resolution::Refused(Error { kind: ResolveProblem::InvalidAlias, message: m })
    }
}

/// The complaint about a service without running tasks.
pub fn no_tasks(cluster: &str, service: &str) -> (r: Error<ResolveProblem>)
    ensures
        r@ == (
            ResolveProblem::NoTasks,
            "no RUNNING tasks found for service '"@ + service@ + "' in cluster '"@ + cluster@
                + "'"@,
        ),
{
    let mut m = String::from_str("no RUNNING tasks found for service '");
    m.append(service);
    m.append("' in cluster '");
    m.append(cluster);
    m.append("'");
    Error { kind: ResolveProblem::NoTasks, message: m }
}

/// Whether a task is running.
pub open spec fn is_running(t: Task) -> bool {
    text::opt_text(t.last_status) == Some("RUNNING"@)
}

/// Whether a task counts: any does, unless only running ones do.
pub open spec fn counts(t: Task, running_only: bool) -> bool {
    running_only ==> is_running(t)
}

/// Whether the task at a place is the newest of those that count: none of them
/// started later, and none behind it in the list started at the same time.
pub open spec fn is_newest(list: Seq<Task>, running_only: bool, p: int) -> bool {
    &&& 0 <= p < list.len()
    &&& counts(list[p], running_only)
    &&& forall|i: int|
        0 <= i < list.len() && counts(#[trigger] list[i], running_only) ==> !instant::earlier_or_none(
            list[p].started_at,
            list[i].started_at,
        ) && (i > p ==> instant::earlier_or_none(list[i].started_at, list[p].started_at))
}


/// Finds the newest task, or the newest running one.
pub fn newest_task(list: &Vec<Task>, running_only: bool) -> (r: Option<usize>)
    ensures
        match r {
            Some(p) => is_newest(list@, running_only, p as int),
            None => forall|i: int|
                0 <= i < list@.len() ==> !counts(#[trigger] list@[i], running_only),
        },
{
    let mut best: Option<usize> = None;
    let mut i: usize = 0;
    while i < list.len()
        invariant
            i <= list@.len(),
            best is None ==> forall|j: int| 0 <= j < i ==> !counts(#[trigger] list@[j], running_only),
            best matches Some(p) ==> p < i && counts(list@[p as int], running_only) && forall|j: int|
                0 <= j < i && counts(#[trigger] list@[j], running_only) ==> !instant::earlier_or_none(
                    list@[p as int].started_at,
                    list@[j].started_at,
                ) && (j > p ==> instant::earlier_or_none(
                    list@[j].started_at,
                    list@[p as int].started_at,
                )),
        decreases list@.len() - i,
    {
        let t = &list[i];
        let running = match &t.last_status {
            Some(status) => same(status.as_str(), "RUNNING"),
            None => false,
        };
        assert(counts(list@[i as int], running_only) == (!running_only || running));
        if !running_only || running {
            let replace = match best {
                None => true,
                Some(p) => !instant::is_before_opt(&t.started_at, &list[p].started_at),
            };
            if replace {
                best = Some(i);
            }
        }
        i = i + 1;
    }
    best
}

/// Whether ECS put a container next to those of the service.
pub open spec fn is_sidecar(name: Option<Seq<char>>) -> bool {
    name matches Some(name) && "ecs-service-connect-"@.is_prefix_of(name)
}

/// Whether ECS put a container next to those of the service.
pub fn is_sidecar_name(name: &Option<String>) -> (r: bool)
    ensures
        r == is_sidecar(text::opt_text(*name)),
{
    match name {
        Some(name) => text::starts_with(name.as_str(), "ecs-service-connect-"),
        None => false,
    }
}

/// The place of the first container of the service itself, from place `i` on.
pub open spec fn app_container(list: Seq<TaskContainer>, i: int) -> int
    decreases list.len() - i,
{
    if i < 0 || i >= list.len() {
        list.len() as int
    } else if !is_sidecar(text::opt_text(list[i].name)) {
        i
    } else {
        app_container(list, i + 1)
    }
}

/// What a task comes to as a target: its identifier, and the first container of
/// the service itself.
pub open spec fn task_result(t: Task) -> Result<(Seq<char>, Seq<char>), Problem> {
    let p = app_container(t.containers@, 0);
    match t.task_arn {
        None => Err((ResolveProblem::NoArn, "task has no ARN"@)),
        Some(arn) => if p < t.containers@.len() && t.containers@[p].name is Some {
            Ok((text::after_last(arn@, '/'), t.containers@[p].name->0@))
        } else {
            Err((ResolveProblem::NoAppContainer, "task has no app containers"@))
        },
    }
}

/// Finds the identifier of a task, and the first container of the service
/// itself.
pub fn task_and_container(t: &Task) -> (r: Result<(String, String), Error<ResolveProblem>>)
    ensures
        match r {
            Ok((id, container)) => task_result(*t) == Ok::<(Seq<char>, Seq<char>), Problem>(
                (id@, container@),
            ),
            Err(e) => task_result(*t) == Err::<(Seq<char>, Seq<char>), Problem>(e@),
        },
{
    let arn = match &t.task_arn {
        Some(arn) => arn.as_str(),
        None => {
            return Err(
                Error { kind: ResolveProblem::NoArn, message: String::from_str("task has no ARN") },
            );
        },
    };
    let list = &t.containers;
    let mut i: usize = 0;
    while i < list.len() && is_sidecar_name(&list[i].name)
        invariant
            list@ == t.containers@,
            i <= list@.len(),
            app_container(list@, 0) == app_container(list@, i as int),
        decreases list@.len() - i,
    {
        i = i + 1;
    }
    if i < list.len() {
        match &list[i].name {
            Some(name) => {
                return Ok((String::from_str(text::last_piece(arn, '/')), name.clone()));
            },
            None => {},
        }
    }
    Err(
        Error {
            kind: ResolveProblem::NoAppContainer,
            message: String::from_str("task has no app containers"),
        },
    )
}

/// Finds the identifier and the container of the newest running task.
pub fn find_newest_task_with_container(list: &Vec<Task>) -> (r: Result<
    (String, String),
    Error<ResolveProblem>,
>)
    ensures
        forall|p: int| #[trigger]
            is_newest(list@, true, p) ==> match r {
                Ok((id, container)) => task_result(list@[p]) == Ok::<
                    (Seq<char>, Seq<char>),
                    Problem,
                >((id@, container@)),
                Err(e) => task_result(list@[p]) == Err::<(Seq<char>, Seq<char>), Problem>(e@),
            },
        (forall|i: int| 0 <= i < list@.len() ==> !is_running(#[trigger] list@[i])) ==> (r matches Err(
            e,
        ) && e@ == (ResolveProblem::NoRunningTask, "no RUNNING tasks found"@)),
        (exists|i: int| 0 <= i < list@.len() && is_running(#[trigger] list@[i])) ==> exists|p: int|
            is_newest(list@, true, p),
{
    match newest_task(list, true) {
        Some(p) => {
            proof {
                assert(counts(list@[p as int], true));
                assert(is_newest(list@, true, p as int));
                assert forall|q: int| #[trigger]
                    is_newest(list@, true, q) implies q == p by {
                    lemma_one_newest(list@, true, p as int, q);
                }
            }
            task_and_container(&list[p])
        },
        None => {
            proof {
                assert forall|q: int| !#[trigger] is_newest(list@, true, q) by {
                    if is_newest(list@, true, q) {
                        assert(counts(list@[q], true));
                    }
                }
            }
            Err(
                Error {
                    kind: ResolveProblem::NoRunningTask,
                    message: String::from_str("no RUNNING tasks found"),
                },
            )
        },
    }
}

/// There is at most one newest task.
pub proof fn lemma_one_newest(list: Seq<Task>, running_only: bool, p: int, q: int)
    requires
        is_newest(list, running_only, p),
        is_newest(list, running_only, q),
    ensures
        p == q,
{
    if p < q {
        assert(counts(list[q], running_only));
    }
    if q < p {
        assert(counts(list[p], running_only));
    }
}

/// The part of a place that may be a short name, and the rest of it, which
/// begins with a colon. There is none in a place without a colon, nor in one that
/// has a slash before it.
pub open spec fn remote_name(s: Seq<char>) -> Option<(Seq<char>, Seq<char>)> {
    let p = text::position(s, ':');
    if s.contains(':') && !s.take(p).contains('/') {
        Some((s.take(p), s.skip(p)))
    } else {
        None
    }
}

/// Splits the part of a place that may be a short name from the rest of it.
pub fn split_remote<'a>(s: &'a str) -> (r: Option<(&'a str, &'a str)>)
    ensures
        match r {
            Some((name, path)) => remote_name(s@) == Some((name@, path@)),
            None => remote_name(s@) is None,
        },
{
    match text::find(s, ':') {
        Some(p) => {
            let n = s.unicode_len();
            let name = s.substring_char(0, p);
            let path = s.substring_char(p, n);
            assert(name@ =~= s@.take(p as int));
            assert(path@ =~= s@.skip(p as int));
            if text::find(name, '/').is_some() {
                None
            } else {
                Some((name, path))
            }
        },
        None => None,
    }
}

/// A place with the part that may be a short name replaced by what that was
/// resolved to. What was no short name is resolved to itself, and stays.
pub fn resolve_remote(s: &str, resolved: &str) -> (r: String)
    ensures
        r@ == (match remote_name(s@) {
            Some((_, path)) => resolved@ + path,
            None => s@,
        }),
        remote_name(s@) matches Some((name, _)) ==> (resolved@ == name ==> r@ == s@),
{
    match split_remote(s) {
        Some((_, path)) => {
            let mut out = String::from_str(resolved);
            out.append(path);
            proof {
                let p = text::position(s@, ':');
                text::lemma_position(s@, ':');
                assert(s@.take(p) + s@.skip(p) =~= s@);
            }
            out
        },
        None => String::from_str(s),
    }
}

/// What a short name comes to: the task and the container that it names, the newest task of
/// the service and the container that it names, or just the newest task. What is no short
/// name is a target.
pub proof fn lemma_what_is_resolved(
    cfg: Config,
    name: Seq<char>,
    cluster: Seq<char>,
    service: Seq<char>,
    container: Seq<char>,
    task: Seq<char>,
)
    requires
        !cluster.contains('/'),
        !service.contains('/'),
        !container.contains('/'),
    ensures
        !cfg.aliases@.contains_key(name) ==> resolution(cfg, name) == ResolutionView::Target(name),
        cfg.aliases@.contains_key(name) && cfg.aliases@[name]@ == cluster ==> resolution(
            cfg,
            name,
        ) is Refused,
        cfg.aliases@.contains_key(name) && cfg.aliases@[name]@ == cluster + seq!['/'] + service
            ==> resolution(cfg, name) == (ResolutionView::NewestTask {
            cluster,
            service,
            container: None,
        }),
        cfg.aliases@.contains_key(name) && cfg.aliases@[name]@ == cluster + seq!['/'] + (service
            + seq!['/'] + container) ==> resolution(cfg, name) == (ResolutionView::NewestTask {
            cluster,
            service,
            container: Some(container),
        }),
        cfg.aliases@.contains_key(name) && cfg.aliases@[name]@ == cluster + seq!['/'] + (service
            + seq!['/'] + (container + seq!['/'] + task)) ==> resolution(cfg, name)
            == ResolutionView::Target(cluster + seq!['/'] + task + seq!['/'] + container),
{
    reveal_strlit("/");
    assert("/"@ =~= seq!['/']);
    reveal_with_fuel(text::split_at_most, 2);
    text::lemma_first_piece(cluster, service, 4, '/');
    text::lemma_first_piece(service, container, 3, '/');
    text::lemma_first_piece(container, task, 2, '/');
    text::lemma_first_piece(cluster, service + seq!['/'] + container, 4, '/');
    text::lemma_first_piece(service, container + seq!['/'] + task, 3, '/');
    text::lemma_first_piece(
        cluster,
        service + seq!['/'] + (container + seq!['/'] + task),
        4,
        '/',
    );
    assert(text::split_at_most(cluster + seq!['/'] + service, 4, '/') =~= seq![cluster, service]);
    assert(text::split_at_most(cluster + seq!['/'] + (service + seq!['/'] + container), 4, '/')
        =~= seq![cluster, service, container]);
    assert(text::split_at_most(
        cluster + seq!['/'] + (service + seq!['/'] + (container + seq!['/'] + task)),
        4,
        '/',
    ) =~= seq![cluster, service, container, task]);
}

/// The newest task is one that counts, and none that counts started after it; of several
/// that started together it is the last in the list. Where only running tasks count, it is
/// running.
pub proof fn lemma_newest_started_last(list: Seq<Task>, running_only: bool, p: int, i: int)
    requires
        is_newest(list, running_only, p),
        0 <= i < list.len(),
        running_only ==> (list[i].last_status matches Some(s) && s@ == "RUNNING"@),
    ensures
        running_only ==> (list[p].last_status matches Some(s) && s@ == "RUNNING"@),
        list[i].started_at is Some ==> list[p].started_at is Some,
        list[i].started_at matches Some(t) ==> {
            let n = list[p].started_at->0;
            t.seconds() < n.seconds() || (t.seconds() == n.seconds() && t.nanoseconds()
                <= n.nanoseconds())
        },
        i > p && list[i].started_at is Some ==> {
            let n = list[p].started_at->0;
            let t = list[i].started_at->0;
            t.seconds() < n.seconds() || (t.seconds() == n.seconds() && t.nanoseconds()
                < n.nanoseconds())
        },
{
    assert(counts(list[i], running_only));
}

/// A task comes to its identifier, which stands behind the last slash of its ARN, and the
/// first of its containers that ECS did not put there.
pub proof fn lemma_task_and_container(t: Task, p: int)
    requires
        0 <= p < t.containers@.len(),
        forall|i: int|
            0 <= i < p ==> ((#[trigger] t.containers@[i]).name matches Some(n)
                && "ecs-service-connect-"@.is_prefix_of(n@)),
        t.containers@[p].name matches Some(n) ==> !"ecs-service-connect-"@.is_prefix_of(n@),
    ensures
        t.task_arn is None ==> (task_result(t) matches Err(e) && e.0 == ResolveProblem::NoArn),
        t.task_arn is Some && t.containers@[p].name is None ==> (task_result(t) matches Err(e)
            && e.0 == ResolveProblem::NoAppContainer),
        t.task_arn matches Some(arn) ==> (t.containers@[p].name matches Some(n) ==> (task_result(
            t,
        ) matches Ok((id, container)) && container == n@ && !id.contains('/') && id.is_suffix_of(
            arn@,
        ))),
{
    lemma_app_container_is(t.containers@, 0, p);
    if let Some(arn) = t.task_arn {
        text::lemma_after_last(arn@, '/');
        let id = text::after_last(arn@, '/');
        assert(arn@.subrange(arn@.len() - id.len(), arn@.len() as int) =~= id);
    }
}

proof fn lemma_app_container_is(list: Seq<TaskContainer>, i: int, p: int)
    requires
        0 <= i <= p < list.len(),
        forall|j: int|
            i <= j < p ==> ((#[trigger] list[j]).name matches Some(n)
                && "ecs-service-connect-"@.is_prefix_of(n@)),
        list[p].name matches Some(n) ==> !"ecs-service-connect-"@.is_prefix_of(n@),
    ensures
        app_container(list, i) == p,
    decreases p - i,
{
    if i < p {
        assert(list[i].name is Some);
        lemma_app_container_is(list, i + 1, p);
    }
}

/// The part of a place that may be a short name is all before its first colon, unless a slash
/// stands there; the rest begins with the colon.
pub proof fn lemma_name_in_place(name: Seq<char>, path: Seq<char>)
    requires
        !name.contains(':'),
    ensures
        remote_name(name) is None,
        !name.contains('/') ==> remote_name(name + seq![':'] + path) == Some(
            (name, seq![':'] + path),
        ),
        name.contains('/') ==> remote_name(name + seq![':'] + path) is None,
{
    let s = name + seq![':'] + path;
    let n = name.len() as int;
    assert(s[n] == ':');
    assert(s.contains(':'));
    assert forall|j: int| 0 <= j < n implies s[j] != ':' by {
        assert(s[j] == name[j]);
        assert(name.contains(name[j]));
    }
    text::lemma_position_is(s, ':', n);
    assert(s.take(n) =~= name);
    assert(s.skip(n) =~= seq![':'] + path);
}

} // verus!
