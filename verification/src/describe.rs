//! What is said of the tasks behind a short name.

use crate::alias;
use crate::alias::{AttachmentDetail, Task, TaskContainer};
use crate::container;
use crate::ecs::{
    ContainerDefinition, ContainerView, KeyValuePair, LogConfiguration, LogView, Secret,
    TaskDefinition, TaskDefinitionView,
};
use crate::error::Error;
use crate::instant;
use crate::json;
use crate::json::{Json, JsonEntry, JsonView};
use crate::number;
use crate::strmap::StrMap;
use crate::text;
use crate::text::same;
use crate::textmap;
use vstd::prelude::*;

verus! {

/// The value of the last setting with a name, of the first `n` settings.
pub open spec fn last_detail(
    list: Seq<AttachmentDetail>,
    name: Seq<char>,
    n: int,
    before: Option<Seq<char>>,
) -> Option<Seq<char>>
    decreases n,
{
    if n <= 0 {
        before
    } else if text::text_or(list[n - 1].name, ""@) == name {
        text::opt_text(list[n - 1].value)
    } else {
        last_detail(list, name, n - 1, before)
    }
}

/// The value of the last setting with a name, in the first `n` things that are
/// attached to a task.
pub open spec fn last_attached(
    list: Seq<Vec<AttachmentDetail>>,
    name: Seq<char>,
    n: int,
) -> Option<Seq<char>>
    decreases n,
{
    if n <= 0 {
        None
    } else {
        last_detail(
            list[n - 1]@,
            name,
            list[n - 1]@.len() as int,
            last_attached(list, name, n - 1),
        )
    }
}

/// A setting of the things that are attached to a task; of several, the last.
pub open spec fn attached(t: Task, name: Seq<char>) -> Option<Seq<char>> {
    last_attached(t.attachments@, name, t.attachments@.len() as int)
}

fn attached_value(t: &Task, name: &str) -> (r: Option<String>)
    ensures
        text::opt_text(r) == attached(*t, name@),
{
    let list = &t.attachments;
    let mut value: Option<String> = None;
    let mut i: usize = 0;
    while i < list.len()
        invariant
            list@ == t.attachments@,
            i <= list@.len(),
            text::opt_text(value) == last_attached(list@, name@, i as int),
        decreases list@.len() - i,
    {
        let details = &list[i];
        let ghost before = text::opt_text(value);
        let mut k: usize = 0;
        while k < details.len()
            invariant
                k <= details@.len(),
                text::opt_text(value) == last_detail(details@, name@, k as int, before),
            decreases details@.len() - k,
        {
            if same(text::str_or(&details[k].name, ""), name) {
                value = text::copy_opt(&details[k].value);
            }
            k = k + 1;
        }
        i = i + 1;
    }
    value
}

/// Finds the private address of a task, and the identifier of its network
/// interface.
pub fn extract_eni_details(t: &Task) -> (r: (Option<String>, Option<String>))
    ensures
        text::opt_text(r.0) == attached(*t, "privateIPv4Address"@),
        text::opt_text(r.1) == attached(*t, "networkInterfaceId"@),
{
    (attached_value(t, "privateIPv4Address"), attached_value(t, "networkInterfaceId"))
}

/// What can be wrong with the way that a task is to be shown.
#[derive(Debug, Clone, Copy, PartialEq, Eq, Structural)]
pub enum FormatProblem {
    UnknownFormat,
}

/// How tasks are shown.
#[verifier::ext_equal]
pub enum FormatView {
    Text,
    Json,
    /// By a template.
    Template(Seq<char>),
    Refused((FormatProblem, Seq<char>)),
}

/// A text without the quotes that it begins and ends with.
pub open spec fn unquoted_front(s: Seq<char>) -> Seq<char>
    decreases s.len(),
{
    if s.len() > 0 && s[0] == '\'' {
        unquoted_front(s.drop_first())
    } else {
        s
    }
}

/// A text without the quotes that it ends with.
pub open spec fn unquoted_back(s: Seq<char>) -> Seq<char>
    decreases s.len(),
{
    if s.len() > 0 && s.last() == '\'' {
        unquoted_back(s.drop_last())
    } else {
        s
    }
}

/// How tasks are shown, by the word for it.
pub open spec fn format_of(output: Option<Seq<char>>) -> FormatView {
    match output {
        None => FormatView::Text,
        Some(word) => if word == "json"@ || word == "--json"@ {
            FormatView::Json
        } else if "jsonpath="@.is_prefix_of(word) {
            FormatView::Template(unquoted_back(unquoted_front(word.skip("jsonpath="@.len() as int))))
        } else {
            FormatView::Refused(
                (
                    FormatProblem::UnknownFormat,
                    "unknown output format '"@ + word
                        + "': use 'json' or \"jsonpath='<template>'\""@,
                ),
            )
        },
    }
}

/// How tasks are shown.
#[derive(Debug)]
pub enum Format<'a> {
    Text,
    Json,
    Template(&'a str),
    Refused(Error<FormatProblem>),
}

impl<'a> View for Format<'a> {
    type V = FormatView;

    open spec fn view(&self) -> FormatView {
        match self {
            Format::Text => FormatView::Text,
            Format::Json => FormatView::Json,
            Format::Template(s) => FormatView::Template(s@),
            Format::Refused(e) => FormatView::Refused(e@),
        }
    }
}

fn unquote<'a>(s: &'a str) -> (r: &'a str)
    ensures
        r@ == unquoted_back(unquoted_front(s@)),
{
    let n = s.unicode_len();
    let mut from: usize = 0;
    assert(s@.skip(0) =~= s@);
    while from < n && s.get_char(from) == '\''
        invariant
            n == s@.len(),
            from <= n,
            unquoted_front(s@) == unquoted_front(s@.skip(from as int)),
        decreases n - from,
    {
        assert(s@.skip(from as int).drop_first() =~= s@.skip(from + 1));
        from = from + 1;
    }
    let ghost front = s@.skip(from as int);
    assert(unquoted_front(s@) == front);
    let mut to: usize = n;
    assert(s@.subrange(from as int, n as int) =~= front);
    while to > from && s.get_char(to - 1) == '\''
        invariant
            n == s@.len(),
            from <= to <= n,
            unquoted_back(front) == unquoted_back(s@.subrange(from as int, to as int)),
        decreases to - from,
    {
        assert(s@.subrange(from as int, to as int).drop_last() =~= s@.subrange(
            from as int,
            to - 1,
        ));
        to = to - 1;
    }
    s.substring_char(from, to)
}

/// Reads how tasks are to be shown.
pub fn read_format<'a>(output: Option<&'a str>) -> (r: Format<'a>)
    ensures
        r@ == format_of(
            match output {
                Some(s) => Some(s@),
                None => None,
            },
        ),
{
    match output {
        None => Format::Text,
        Some(word) => {
            if same(word, "json") || same(word, "--json") {
                Format::Json
            } else if text::starts_with(word, "jsonpath=") {
                proof {
                    reveal_strlit("jsonpath=");
                }
                let n = word.unicode_len();
                let rest = word.substring_char(9, n);
                assert(rest@ =~= word@.skip(9));
                Format::Template(unquote(rest))
            } else {
                let mut m = String::from_str("unknown output format '");
                m.append(word);
                m.append("': use 'json' or \"jsonpath='<template>'\"");
                Format::Refused(Error { kind: FormatProblem::UnknownFormat, message: m })
            }
        },
    }
}

/// The identifier of a task.
pub open spec fn task_id(t: Task) -> Seq<char> {
    text::after_last(text::text_or(t.task_arn, "?"@), '/')
}

/// The identifier of a task.
pub fn task_id_of(t: &Task) -> (r: &str)
    ensures
        r@ == task_id(*t),
{
    text::last_piece(text::str_or(&t.task_arn, "?"), '/')
}

/// The architecture that a task runs on.
pub open spec fn task_arch(td: Option<TaskDefinition>) -> Seq<char> {
    match td {
        Some(td) => text::text_or(td.cpu_architecture, "X86_64"@),
        None => "X86_64"@,
    }
}

fn arch_of(td: &Option<TaskDefinition>) -> (r: &str)
    ensures
        r@ == task_arch(*td),
{
    match td {
        Some(td) => text::str_or(&td.cpu_architecture, "X86_64"),
        None => "X86_64",
    }
}

/// When a task started, as it is shown, or another text where that is not known.
pub open spec fn started_text(t: Task, other: Seq<char>) -> Seq<char> {
    match t.started_at {
        Some(at) => instant::time_text(at.seconds(), at.nanoseconds()),
        None => other,
    }
}

fn started_or(t: &Task, other: &str) -> (r: String)
    ensures
        r@ == started_text(*t, other@),
{
    match &t.started_at {
        Some(at) => at.show(),
        None => String::from_str(other),
    }
}

/// Where the value of a secret is kept.
pub open spec fn secret_source(from: Seq<char>) -> Seq<char> {
    if text::occurs(from, ":secretsmanager:"@) {
        "secretsmanager"@
    } else if text::occurs(from, ":ssm:"@) {
        "ssm"@
    } else {
        "secret"@
    }
}

/// Where the value of a secret is kept.
pub fn source_of(from: &str) -> (r: &'static str)
    ensures
        r@ == secret_source(from@),
{
    if text::contains(from, ":secretsmanager:") {
        "secretsmanager"
    } else if text::contains(from, ":ssm:") {
        "ssm"
    } else {
        "secret"
    }
}

/// The place of the first container with a name, from place `i` on; the number
/// of containers where there is none.
pub open spec fn named_place(list: Seq<ContainerView>, name: Seq<char>, i: int) -> int
    decreases list.len() - i,
{
    if i < 0 || i >= list.len() {
        list.len() as int
    } else if list[i].name == Some(name) {
        i
    } else {
        named_place(list, name, i + 1)
    }
}

/// The definition of a container of a task, unless ECS put it there.
pub open spec fn definition_of(td: Option<TaskDefinition>, name: Seq<char>) -> Option<
    ContainerView,
> {
    if alias::is_sidecar(Some(name)) {
        None
    } else {
        match td {
            Some(td) => {
                let list = td@.container_definitions;
                let p = named_place(list, name, 0);
                if p < list.len() {
                    Some(list[p])
                } else {
                    None
                }
            },
            None => None,
        }
    }
}

fn find_definition<'a>(td: &'a Option<TaskDefinition>, name: &str) -> (r: Option<
    &'a ContainerDefinition,
>)
    ensures
        match r {
            Some(cd) => definition_of(*td, name@) == Some(cd@),
            None => definition_of(*td, name@) is None,
        },
{
    if text::starts_with(name, "ecs-service-connect-") {
        return None;
    }
    match td {
        Some(d) => {
            let list = &d.container_definitions;
            let ghost all = d@.container_definitions;
            let mut i: usize = 0;
            while i < list.len()
                invariant
                    *td == Some(*d),
                    i <= list@.len(),
                    all == list@.map_values(|c: ContainerDefinition| c@),
                    named_place(all, name@, 0) == named_place(all, name@, i as int),
                    all == d@.container_definitions,
                    !alias::is_sidecar(Some(name@)),
                decreases list@.len() - i,
            {
                assert(all[i as int] == list@[i as int]@);
                match &list[i].name {
                    Some(n) => {
                        if same(n.as_str(), name) {
                            return Some(&list[i]);
                        }
                    },
                    None => {},
                }
                i = i + 1;
            }
            None
        },
        None => None,
    }
}

/// The lines for the environment variables of a container.
pub open spec fn env_lines(
    list: Seq<(Option<Seq<char>>, Option<Seq<char>>)>,
) -> Seq<Seq<char>> {
    list.map_values(
        |kv: (Option<Seq<char>>, Option<Seq<char>>)|
            "        "@ + (match kv.0 {
                Some(k) => k,
                None => "?"@,
            }) + "="@ + (match kv.1 {
                Some(v) => v,
                None => ""@,
            }),
    )
}

/// The lines for the secrets of a container, without what they hold.
pub open spec fn secret_lines(list: Seq<(Seq<char>, Seq<char>)>) -> Seq<Seq<char>> {
    list.map_values(
        |s: (Seq<char>, Seq<char>)|
            "        "@ + s.0 + "=*** (from "@ + secret_source(s.1) + ")"@,
    )
}

/// The lines below a container.
pub open spec fn definition_lines(cd: Option<ContainerView>) -> Seq<Seq<char>> {
    match cd {
        Some(cd) => if cd.environment.len() == 0 && cd.secrets.len() == 0 {
            Seq::empty()
        } else {
            seq!["      Env:"@] + env_lines(cd.environment) + secret_lines(cd.secrets)
        },
        None => Seq::empty(),
    }
}

/// The lines for one container of a task.
pub open spec fn container_lines(c: TaskContainer, td: Option<TaskDefinition>) -> Seq<Seq<char>> {
    let name = text::text_or(c.name, "?"@);
    seq![
        "    - "@ + name + (if alias::is_sidecar(Some(name)) {
            " (sidecar)"@
        } else {
            ""@
        }) + ": "@ + text::text_or(c.last_status, "?"@) + " ["@ + text::text_or(c.image, "?"@)
            + "]"@,
    ] + definition_lines(definition_of(td, name))
}

/// The lines for the first `n` containers of a task.
pub open spec fn containers_lines(
    list: Seq<TaskContainer>,
    td: Option<TaskDefinition>,
    n: int,
) -> Seq<Seq<char>>
    decreases n,
{
    if n <= 0 {
        Seq::empty()
    } else {
        containers_lines(list, td, n - 1) + container_lines(list[n - 1], td)
    }
}

/// A line for a text that may be absent.
pub open spec fn line_for(label: Seq<char>, s: Option<Seq<char>>) -> Seq<Seq<char>> {
    match s {
        Some(s) => seq![label + s],
        None => Seq::empty(),
    }
}

/// The word for a truth value.
pub open spec fn bool_word(b: bool) -> Seq<char> {
    if b {
        "true"@
    } else {
        "false"@
    }
}

/// The lines for a task, before those for its containers. A public address
/// belongs to a network interface.
pub open spec fn task_head(
    t: Task,
    td: Option<TaskDefinition>,
    public_ip: Option<Seq<char>>,
) -> Seq<Seq<char>> {
    seq!["  Task:       "@ + task_id(t), "  Status:     "@ + text::text_or(t.last_status, "?"@)]
        + line_for("  PrivateIP:  "@, attached(t, "privateIPv4Address"@)) + (if attached(
        t,
        "networkInterfaceId"@,
    ) is Some {
        line_for("  PublicIP:   "@, public_ip)
    } else {
        Seq::empty()
    }) + seq![
        "  Health:     "@ + text::text_or(t.health_status, "UNKNOWN"@),
        "  Started:    "@ + started_text(t, "-"@),
        "  CPU/Memory: "@ + text::text_or(t.cpu, "?"@) + " / "@ + text::text_or(t.memory, "?"@),
        "  Arch:       "@ + task_arch(td),
        "  Capacity:   "@ + text::text_or(t.capacity_provider_name, "?"@),
        "  Platform:   "@ + text::text_or(t.platform_version, "?"@),
        "  AZ:         "@ + text::text_or(t.availability_zone, "?"@),
        "  Connected:  "@ + text::text_or(t.connectivity, "?"@),
        "  ExecEnabled:"@ + bool_word(t.enable_execute_command),
        "  TaskDef:    "@ + text::text_or(t.task_definition_arn, "?"@),
        "  Containers:"@,
    ]
}

/// The lines for a task.
pub open spec fn task_lines(
    t: Task,
    td: Option<TaskDefinition>,
    public_ip: Option<Seq<char>>,
) -> Seq<Seq<char>> {
    task_head(t, td, public_ip) + containers_lines(t.containers@, td, t.containers@.len() as int)
        + seq![""@]
}

fn line(lines: &mut Vec<String>, label: &str, s: &str)
    ensures
        text::texts(final(lines)@) == text::texts(old(lines)@).push(label@ + s@),
{
    let ghost before = text::texts(lines@);
    let mut m = String::from_str(label);
    m.append(s);
    lines.push(m);
    assert(text::texts(lines@) =~= before.push(label@ + s@));
}

fn whole_line(lines: &mut Vec<String>, s: String)
    ensures
        text::texts(final(lines)@) == text::texts(old(lines)@).push(s@),
{
    let ghost before = text::texts(lines@);
    let ghost seen = s@;
    lines.push(s);
    assert(text::texts(lines@) =~= before.push(seen));
}

fn say_definition(lines: &mut Vec<String>, cd: &ContainerDefinition)
    ensures
        text::texts(final(lines)@) == text::texts(old(lines)@) + definition_lines(Some(cd@)),
{
    let ghost start = text::texts(lines@);
    let env = &cd.environment;
    let secrets = &cd.secrets;
    if env.len() == 0 && secrets.len() == 0 {
        assert(start + Seq::<Seq<char>>::empty() =~= start);
        return;
    }
    whole_line(lines, String::from_str("      Env:"));
    let ghost top = seq!["      Env:"@];
    let ghost envs = env_lines(cd@.environment);
    let ghost kept = secret_lines(cd@.secrets);
    assert(text::texts(lines@) =~= start + top + envs.take(0));
    let mut i: usize = 0;
    while i < env.len()
        invariant
            i <= env@.len(),
            env@ == cd.environment@,
            envs == env_lines(cd@.environment),
            text::texts(lines@) == start + top + envs.take(i as int),
        decreases env@.len() - i,
    {
        let kv = &env[i];
        let mut m = String::from_str("        ");
        m.append(text::str_or(&kv.name, "?"));
        m.append("=");
        m.append(text::str_or(&kv.value, ""));
        assert(cd@.environment[i as int] == kv@);
        assert(m@ == envs[i as int]);
        whole_line(lines, m);
        assert(envs.take(i + 1) =~= envs.take(i as int).push(envs[i as int]));
        assert(text::texts(lines@) =~= start + top + envs.take(i + 1));
        i = i + 1;
    }
    assert(envs.take(envs.len() as int) =~= envs);
    assert(text::texts(lines@) =~= start + top + envs + kept.take(0));
    let mut k: usize = 0;
    while k < secrets.len()
        invariant
            k <= secrets@.len(),
            secrets@ == cd.secrets@,
            kept == secret_lines(cd@.secrets),
            text::texts(lines@) == start + top + envs + kept.take(k as int),
        decreases secrets@.len() - k,
    {
        let s = &secrets[k];
        let mut m = String::from_str("        ");
        m.append(s.name.as_str());
        m.append("=*** (from ");
        m.append(source_of(s.value_from.as_str()));
        m.append(")");
        assert(cd@.secrets[k as int] == s@);
        assert(m@ == kept[k as int]);
        whole_line(lines, m);
        assert(kept.take(k + 1) =~= kept.take(k as int).push(kept[k as int]));
        assert(text::texts(lines@) =~= start + top + envs + kept.take(k + 1));
        k = k + 1;
    }
    assert(kept.take(kept.len() as int) =~= kept);
    assert(text::texts(lines@) =~= start + definition_lines(Some(cd@)));
}

fn say_container(lines: &mut Vec<String>, c: &TaskContainer, td: &Option<TaskDefinition>)
    ensures
        text::texts(final(lines)@) == text::texts(old(lines)@) + container_lines(*c, *td),
{
    let ghost start = text::texts(lines@);
    let name = text::str_or(&c.name, "?");
    let mut m = String::from_str("    - ");
    m.append(name);
    if text::starts_with(name, "ecs-service-connect-") {
        m.append(" (sidecar)");
    } else {
        m.append("");
    }
    m.append(": ");
    m.append(text::str_or(&c.last_status, "?"));
    m.append(" [");
    m.append(text::str_or(&c.image, "?"));
    m.append("]");
    whole_line(lines, m);
    match find_definition(td, name) {
        Some(cd) => {
            say_definition(lines, cd);
        },
        None => {},
    }
    assert(text::texts(lines@) =~= start + container_lines(*c, *td));
}

/// Writes what is said of a task, one text for each line, from what was found out
/// about its task definition and its public address.
pub fn describe_task(t: &Task, td: &Option<TaskDefinition>, public_ip: &Option<String>) -> (r: Vec<
    String,
>)
    ensures
        text::texts(r@) == task_lines(*t, *td, text::opt_text(*public_ip)),
{
    let mut lines: Vec<String> = Vec::new();
    assert(text::texts(lines@) =~= Seq::empty());
    line(&mut lines, "  Task:       ", task_id_of(t));
    line(&mut lines, "  Status:     ", text::str_or(&t.last_status, "?"));
    let (private_ip, eni) = extract_eni_details(t);
    match &private_ip {
        Some(ip) => {
            line(&mut lines, "  PrivateIP:  ", ip.as_str());
        },
        None => {},
    }
    if eni.is_some() {
        match public_ip {
            Some(ip) => {
                line(&mut lines, "  PublicIP:   ", ip.as_str());
            },
            None => {},
        }
    }
    line(&mut lines, "  Health:     ", text::str_or(&t.health_status, "UNKNOWN"));
    line(&mut lines, "  Started:    ", started_or(t, "-").as_str());
    let mut size = String::from_str("  CPU/Memory: ");
    size.append(text::str_or(&t.cpu, "?"));
    size.append(" / ");
    size.append(text::str_or(&t.memory, "?"));
    whole_line(&mut lines, size);
    line(&mut lines, "  Arch:       ", arch_of(td));
    line(&mut lines, "  Capacity:   ", text::str_or(&t.capacity_provider_name, "?"));
    line(&mut lines, "  Platform:   ", text::str_or(&t.platform_version, "?"));
    line(&mut lines, "  AZ:         ", text::str_or(&t.availability_zone, "?"));
    line(&mut lines, "  Connected:  ", text::str_or(&t.connectivity, "?"));
    line(
        &mut lines,
        "  ExecEnabled:",
        if t.enable_execute_command {
            "true"
        } else {
            "false"
        },
    );
    line(&mut lines, "  TaskDef:    ", text::str_or(&t.task_definition_arn, "?"));
    whole_line(&mut lines, String::from_str("  Containers:"));
    let ghost head = task_head(*t, *td, text::opt_text(*public_ip));
    assert(text::texts(lines@) =~= head);
    let mut i: usize = 0;
    assert(head + containers_lines(t.containers@, *td, 0) =~= head);
    while i < t.containers.len()
        invariant
            i <= t.containers@.len(),
            text::texts(lines@) == head + containers_lines(t.containers@, *td, i as int),
        decreases t.containers@.len() - i,
    {
        say_container(&mut lines, &t.containers[i], td);
        assert(text::texts(lines@) =~= head + containers_lines(t.containers@, *td, i + 1));
        i = i + 1;
    }
    whole_line(&mut lines, String::from_str(""));
    assert(text::texts(lines@) =~= task_lines(*t, *td, text::opt_text(*public_ip)));
    lines
}

/// Writes the lines above those for the tasks behind a short name.
pub fn describe_head(alias: &str, target: &str, cluster: &str, service: &str, tasks: usize) -> (r:
    Vec<String>)
    ensures
        text::texts(r@) == seq![
            "Alias:   "@ + alias@,
            "Target:  "@ + target@,
            "Cluster: "@ + cluster@,
            "Service: "@ + service@,
            "Tasks:   "@ + number::decimal(tasks as nat),
            ""@,
        ],
{
    let mut lines: Vec<String> = Vec::new();
    assert(text::texts(lines@) =~= Seq::empty());
    line(&mut lines, "Alias:   ", alias);
    line(&mut lines, "Target:  ", target);
    line(&mut lines, "Cluster: ", cluster);
    line(&mut lines, "Service: ", service);
    line(&mut lines, "Tasks:   ", number::to_decimal(tasks as u128).as_str());
    whole_line(&mut lines, String::from_str(""));
    assert(text::texts(lines@) =~= seq![
        "Alias:   "@ + alias@,
        "Target:  "@ + target@,
        "Cluster: "@ + cluster@,
        "Service: "@ + service@,
        "Tasks:   "@ + number::decimal(tasks as nat),
        ""@,
    ]);
    lines
}

/// Writes what is said of a short name without running tasks behind it.
pub fn describe_idle(alias: &str, target: &str) -> (r: Vec<String>)
    ensures
        text::texts(r@) == seq![
            "Alias:   "@ + alias@,
            "Target:  "@ + target@,
            "Status:  No RUNNING tasks"@,
        ],
{
    let mut lines: Vec<String> = Vec::new();
    assert(text::texts(lines@) =~= Seq::empty());
    line(&mut lines, "Alias:   ", alias);
    line(&mut lines, "Target:  ", target);
    whole_line(&mut lines, String::from_str("Status:  No RUNNING tasks"));
    assert(text::texts(lines@) =~= seq![
        "Alias:   "@ + alias@,
        "Target:  "@ + target@,
        "Status:  No RUNNING tasks"@,
    ]);
    lines
}

/// The log group and the stream prefix of a container that writes to one.
pub open spec fn log_place(lc: Option<LogView>) -> Option<(Seq<char>, Seq<char>)> {
    match lc {
        Some(lc) => if lc.log_driver == "awslogs"@ {
            match lc.options {
                Some(m) => if m.contains_key("awslogs-group"@) && m.contains_key(
                    "awslogs-stream-prefix"@,
                ) {
                    Some((m["awslogs-group"@], m["awslogs-stream-prefix"@]))
                } else {
                    None
                },
                None => None,
            }
        } else {
            None
        },
        None => None,
    }
}

/// The log group and the stream of the first container of the service itself.
pub open spec fn task_log(td: TaskDefinitionView, id: Seq<char>) -> Option<
    (Seq<char>, Seq<char>),
> {
    let list = td.container_definitions;
    let p = container::app_place(list, 0);
    if p < list.len() {
        match log_place(list[p].log_configuration) {
            Some((group, prefix)) => Some(
                (
                    group,
                    prefix + "/"@ + (match list[p].name {
                        Some(name) => name,
                        None => "app"@,
                    }) + "/"@ + id,
                ),
            ),
            None => None,
        }
    } else {
        None
    }
}

/// The log group and the stream prefix of a container that writes to one.
pub fn read_log_place(lc: &Option<LogConfiguration>) -> (r: Option<(&str, &str)>)
    ensures
        match r {
            Some((group, prefix)) => log_place(
                match *lc {
                    Some(lc) => Some(lc@),
                    None => None,
                },
            ) == Some((group@, prefix@)),
            None => log_place(
                match *lc {
                    Some(lc) => Some(lc@),
                    None => None,
                },
            ) is None,
        },
{
    match lc {
        Some(lc) => {
            if !same(lc.log_driver.as_str(), "awslogs") {
                return None;
            }
            match &lc.options {
                Some(m) => match (m.get("awslogs-group"), m.get("awslogs-stream-prefix")) {
                    (Some(group), Some(prefix)) => Some((group.as_str(), prefix.as_str())),
                    _ => None,
                },
                None => None,
            }
        },
        None => None,
    }
}

/// Writes the name of a log stream.
pub fn stream_name(prefix: &str, container: &str, id: &str) -> (r: String)
    ensures
        r@ == prefix@ + "/"@ + container@ + "/"@ + id@,
{
    let mut s = String::from_str(prefix);
    s.append("/");
    s.append(container);
    s.append("/");
    s.append(id);
    s
}

/// Finds the log group and the stream whose last lines are shown with a task.
pub fn log_stream_of(td: &TaskDefinition, id: &str) -> (r: Option<(String, String)>)
    ensures
        match r {
            Some((group, stream)) => task_log(td@, id@) == Some((group@, stream@)),
            None => task_log(td@, id@) is None,
        },
{
    match container::find_app_container(&td.container_definitions) {
        Some(cd) => {
            proof {
                let p = container::app_place(td@.container_definitions, 0);
                assert(td@.container_definitions[p] == td.container_definitions@[p]@);
            }
            match read_log_place(&cd.log_configuration) {
                Some((group, prefix)) => Some(
                    (
                        String::from_str(group),
                        stream_name(prefix, text::str_or(&cd.name, "app"), id),
                    ),
                ),
                None => None,
            }
        },
        None => None,
    }
}

/// The lines for the last output of a task.
pub open spec fn log_lines(messages: Seq<Option<String>>) -> Seq<Seq<char>> {
    if messages.len() == 0 {
        Seq::empty()
    } else {
        seq!["  Logs (last "@ + number::decimal(messages.len()) + "):"@] + messages.map_values(
            |m: Option<String>| "    "@ + text::text_or(m, ""@),
        ) + seq![""@]
    }
}

/// Writes the last output of a task, one text for each line.
pub fn describe_logs(messages: &Vec<Option<String>>) -> (r: Vec<String>)
    ensures
        text::texts(r@) == log_lines(messages@),
{
    let mut lines: Vec<String> = Vec::new();
    assert(text::texts(lines@) =~= Seq::empty());
    if messages.len() == 0 {
        return lines;
    }
    let mut top = String::from_str("  Logs (last ");
    top.append(number::to_decimal(messages.len() as u128).as_str());
    top.append("):");
    let ghost first = seq![top@];
    let ghost all = messages@.map_values(|m: Option<String>| "    "@ + text::text_or(m, ""@));
    whole_line(&mut lines, top);
    assert(text::texts(lines@) =~= first + all.take(0));
    let mut i: usize = 0;
    while i < messages.len()
        invariant
            i <= messages@.len(),
            all == messages@.map_values(|m: Option<String>| "    "@ + text::text_or(m, ""@)),
            text::texts(lines@) == first + all.take(i as int),
        decreases messages@.len() - i,
    {
        line(&mut lines, "    ", text::str_or(&messages[i], ""));
        assert(all.take(i + 1) =~= all.take(i as int).push(all[i as int]));
        assert(text::texts(lines@) =~= first + all.take(i + 1));
        i = i + 1;
    }
    whole_line(&mut lines, String::from_str(""));
    assert(all.take(all.len() as int) =~= all);
    assert(text::texts(lines@) =~= log_lines(messages@));
    lines
}

/// The environment variables of a container, as they are shown in JSON.
pub open spec fn shown_env(list: Seq<(Option<Seq<char>>, Option<Seq<char>>)>) -> Map<
    Seq<char>,
    Seq<char>,
>
    decreases list.len(),
{
    if list.len() == 0 {
        Map::empty()
    } else {
        shown_env(list.drop_last()).insert(
            match list.last().0 {
                Some(k) => k,
                None => "?"@,
            },
            match list.last().1 {
                Some(v) => v,
                None => ""@,
            },
        )
    }
}

/// Whether a value is the object of strings that a map describes, its members in
/// the order of their keys.
pub open spec fn is_text_object(v: JsonView, m: Map<Seq<char>, Seq<char>>) -> bool {
    v matches JsonView::Object(entries) && exists|s: StrMap<String>| #[trigger]
        s.ordered() && textmap::text_map(s) == m && entries == textmap::pairs(s).map_values(
            |kv: (Seq<char>, Seq<char>)| (kv.0, JsonView::Str(kv.1)),
        )
}

fn text_object(m: &StrMap<String>) -> (r: Json)
    ensures
        is_text_object(r@, textmap::text_map(*m)),
{
    let n = m.len();
    let ghost want = textmap::pairs(*m).map_values(
        |kv: (Seq<char>, Seq<char>)| (kv.0, JsonView::Str(kv.1)),
    );
    let mut entries: Vec<JsonEntry> = Vec::new();
    let mut i: usize = 0;
    assert(json::entry_views(entries@) =~= want.take(0));
    while i < n
        invariant
            n == m.len_spec(),
            i <= n,
            want == textmap::pairs(*m).map_values(
                |kv: (Seq<char>, Seq<char>)| (kv.0, JsonView::Str(kv.1)),
            ),
            json::entry_views(entries@) == want.take(i as int),
        decreases n - i,
    {
        json::put(&mut entries, m.key_at(i), json::string(m.value_at(i).as_str()));
        assert(want.take(i + 1) =~= want.take(i as int).push(want[i as int]));
        i = i + 1;
    }
    assert(want.take(n as int) =~= want);
    json::object(entries)
}

fn env_map(cd: &ContainerDefinition) -> (r: StrMap<String>)
    ensures
        textmap::text_map(r) == shown_env(cd@.environment),
{
    let list = &cd.environment;
    let ghost all = cd@.environment;
    let mut out: StrMap<String> = StrMap::new();
    let mut i: usize = 0;
    assert(textmap::text_map(out) =~= shown_env(all.take(0)));
    while i < list.len()
        invariant
            i <= list@.len(),
            all == list@.map_values(|kv: KeyValuePair| kv@),
            textmap::text_map(out) == shown_env(all.take(i as int)),
        decreases list@.len() - i,
    {
        let ghost before = textmap::text_map(out);
        let kv = &list[i];
        let k = text::str_or(&kv.name, "?");
        let v = text::str_or(&kv.value, "");
        out.insert(String::from_str(k), String::from_str(v));
        proof {
            assert(all.take(i + 1).drop_last() =~= all.take(i as int));
            assert(all.take(i + 1).last() == kv@);
            assert(textmap::text_map(out) =~= before.insert(k@, v@));
        }
        i = i + 1;
    }
    assert(all.take(all.len() as int) =~= all);
    out
}

fn secret_map(cd: &ContainerDefinition) -> (r: StrMap<String>)
    ensures
        textmap::text_map(r) == textmap::collected(cd@.secrets),
{
    let list = &cd.secrets;
    let ghost all = cd@.secrets;
    let mut out: StrMap<String> = StrMap::new();
    let mut i: usize = 0;
    assert(textmap::text_map(out) =~= textmap::collected(all.take(0)));
    while i < list.len()
        invariant
            i <= list@.len(),
            all == list@.map_values(|s: Secret| s@),
            textmap::text_map(out) == textmap::collected(all.take(i as int)),
        decreases list@.len() - i,
    {
        let ghost before = textmap::text_map(out);
        let s = &list[i];
        out.insert(s.name.clone(), s.value_from.clone());
        proof {
            assert(all.take(i + 1).drop_last() =~= all.take(i as int));
            assert(all.take(i + 1).last() == s@);
            assert(textmap::text_map(out) =~= before.insert(s.name@, s.value_from@));
        }
        i = i + 1;
    }
    assert(all.take(all.len() as int) =~= all);
    out
}

/// The members that every container has in JSON.
pub open spec fn container_members(c: TaskContainer) -> Seq<(Seq<char>, JsonView)> {
    let name = text::text_or(c.name, "?"@);
    seq![
        ("name"@, JsonView::Str(name)),
        ("status"@, JsonView::Str(text::text_or(c.last_status, "?"@))),
        ("image"@, JsonView::Str(text::text_or(c.image, "?"@))),
        ("sidecar"@, JsonView::Bool(alias::is_sidecar(Some(name)))),
    ]
}

/// Whether a value is a container in JSON: with its environment and its secrets,
/// if its definition is known and ECS did not put it there.
pub open spec fn is_container_json(
    v: JsonView,
    c: TaskContainer,
    td: Option<TaskDefinition>,
) -> bool {
    &&& v is Object
    &&& match definition_of(td, text::text_or(c.name, "?"@)) {
        None => v->Object_0 == container_members(c),
        Some(cd) => {
            &&& v->Object_0.len() == 6
            &&& v->Object_0.take(4) == container_members(c)
            &&& v->Object_0[4].0 == "env"@
            &&& is_text_object(v->Object_0[4].1, shown_env(cd.environment))
            &&& v->Object_0[5].0 == "secrets"@
            &&& is_text_object(v->Object_0[5].1, textmap::collected(cd.secrets))
        },
    }
}

fn container_json(c: &TaskContainer, td: &Option<TaskDefinition>) -> (r: Json)
    ensures
        is_container_json(r@, *c, *td),
{
    let name = text::str_or(&c.name, "?");
    let mut entries: Vec<JsonEntry> = Vec::new();
    assert(json::entry_views(entries@) =~= Seq::empty());
    json::put(&mut entries, "name", json::string(name));
    json::put(&mut entries, "status", json::string(text::str_or(&c.last_status, "?")));
    json::put(&mut entries, "image", json::string(text::str_or(&c.image, "?")));
    json::put(
        &mut entries,
        "sidecar",
        Json::Bool(text::starts_with(name, "ecs-service-connect-")),
    );
    assert(json::entry_views(entries@) =~= container_members(*c));
    match find_definition(td, name) {
        Some(cd) => {
            let env = text_object(&env_map(cd));
            let secrets = text_object(&secret_map(cd));
            let ghost members = json::entry_views(entries@);
            let ghost shown = env@;
            let ghost kept = secrets@;
            json::put(&mut entries, "env", env);
            json::put(&mut entries, "secrets", secrets);
            assert(json::entry_views(entries@) =~= members.push(("env"@, shown)).push(
                ("secrets"@, kept),
            ));
            assert(json::entry_views(entries@).take(4) =~= members);
        },
        None => {},
    }
    json::object(entries)
}

/// A text in JSON, or null.
pub open spec fn text_or_null(s: Option<Seq<char>>) -> JsonView {
    match s {
        Some(s) => JsonView::Str(s),
        None => JsonView::Null,
    }
}

/// The members of a task in JSON, before its containers. A public address belongs
/// to a network interface.
pub open spec fn task_members(
    t: Task,
    td: Option<TaskDefinition>,
    public_ip: Option<Seq<char>>,
) -> Seq<(Seq<char>, JsonView)> {
    seq![
        ("task_id"@, JsonView::Str(task_id(t))),
        ("status"@, JsonView::Str(text::text_or(t.last_status, "?"@))),
        ("health"@, JsonView::Str(text::text_or(t.health_status, "UNKNOWN"@))),
        ("started"@, JsonView::Str(started_text(t, ""@))),
        ("cpu"@, JsonView::Str(text::text_or(t.cpu, "?"@))),
        ("memory"@, JsonView::Str(text::text_or(t.memory, "?"@))),
        ("arch"@, JsonView::Str(task_arch(td))),
        ("capacity"@, JsonView::Str(text::text_or(t.capacity_provider_name, "?"@))),
        ("platform_version"@, JsonView::Str(text::text_or(t.platform_version, "?"@))),
        ("az"@, JsonView::Str(text::text_or(t.availability_zone, "?"@))),
        ("connectivity"@, JsonView::Str(text::text_or(t.connectivity, "?"@))),
        ("exec_enabled"@, JsonView::Bool(t.enable_execute_command)),
        ("task_definition"@, JsonView::Str(text::text_or(t.task_definition_arn, "?"@))),
        ("private_ip"@, text_or_null(attached(t, "privateIPv4Address"@))),
        (
            "public_ip"@,
            text_or_null(
                if attached(t, "networkInterfaceId"@) is Some {
                    public_ip
                } else {
                    None
                },
            ),
        ),
    ]
}

/// Whether a value is a task in JSON.
pub open spec fn is_task_json(
    v: JsonView,
    t: Task,
    td: Option<TaskDefinition>,
    public_ip: Option<Seq<char>>,
) -> bool {
    &&& v is Object
    &&& v->Object_0.len() == 16
    &&& v->Object_0.take(15) == task_members(t, td, public_ip)
    &&& v->Object_0[15].0 == "containers"@
    &&& v->Object_0[15].1 is Array
    &&& v->Object_0[15].1->Array_0.len() == t.containers@.len()
    &&& forall|i: int|
        0 <= i < t.containers@.len() ==> is_container_json(
            #[trigger] v->Object_0[15].1->Array_0[i],
            t.containers@[i],
            td,
        )
}

fn opt_string(s: &Option<String>) -> (r: Json)
    ensures
        r@ == text_or_null(text::opt_text(*s)),
{
    match s {
        Some(s) => json::string(s.as_str()),
        None => Json::Null,
    }
}

fn put_text(entries: &mut Vec<JsonEntry>, key: &str, s: &str)
    ensures
        json::entry_views(final(entries)@) == json::entry_views(old(entries)@).push(
            (key@, JsonView::Str(s@)),
        ),
{
    json::put(entries, key, json::string(s));
}

/// Writes a task as JSON, from what was found out about its task definition and
/// its public address.
pub fn task_json(t: &Task, td: &Option<TaskDefinition>, public_ip: &Option<String>) -> (r: Json)
    ensures
        is_task_json(r@, *t, *td, text::opt_text(*public_ip)),
{
    let mut list: Vec<Json> = Vec::new();
    let mut i: usize = 0;
    while i < t.containers.len()
        invariant
            i <= t.containers@.len(),
            list@.len() == i,
            forall|j: int|
                0 <= j < i ==> is_container_json((#[trigger] list@[j])@, t.containers@[j], *td),
        decreases t.containers@.len() - i,
    {
        list.push(container_json(&t.containers[i], td));
        i = i + 1;
    }
    let (private_ip, eni) = extract_eni_details(t);
    let mut entries: Vec<JsonEntry> = Vec::new();
    assert(json::entry_views(entries@) =~= Seq::empty());
    put_text(&mut entries, "task_id", task_id_of(t));
    put_text(&mut entries, "status", text::str_or(&t.last_status, "?"));
    put_text(&mut entries, "health", text::str_or(&t.health_status, "UNKNOWN"));
    put_text(&mut entries, "started", started_or(t, "").as_str());
    put_text(&mut entries, "cpu", text::str_or(&t.cpu, "?"));
    put_text(&mut entries, "memory", text::str_or(&t.memory, "?"));
    put_text(&mut entries, "arch", arch_of(td));
    put_text(&mut entries, "capacity", text::str_or(&t.capacity_provider_name, "?"));
    put_text(&mut entries, "platform_version", text::str_or(&t.platform_version, "?"));
    put_text(&mut entries, "az", text::str_or(&t.availability_zone, "?"));
    put_text(&mut entries, "connectivity", text::str_or(&t.connectivity, "?"));
    json::put(&mut entries, "exec_enabled", Json::Bool(t.enable_execute_command));
    put_text(&mut entries, "task_definition", text::str_or(&t.task_definition_arn, "?"));
    json::put(&mut entries, "private_ip", opt_string(&private_ip));
    let public = if eni.is_some() {
        opt_string(public_ip)
    } else {
        Json::Null
    };
    json::put(&mut entries, "public_ip", public);
    let ghost members = json::entry_views(entries@);
    assert(members =~= task_members(*t, *td, text::opt_text(*public_ip)));
    let containers = json::array(list);
    let ghost shown = containers@;
    assert(shown->Array_0 == json::value_views(list@));
    json::put(&mut entries, "containers", containers);
    assert(json::entry_views(entries@) =~= members.push(("containers"@, shown)));
    assert(json::entry_views(entries@).take(15) =~= members);
    assert forall|j: int| 0 <= j < t.containers@.len() implies is_container_json(
        #[trigger] shown->Array_0[j],
        t.containers@[j],
        *td,
    ) by {
        assert(shown->Array_0[j] == list@[j]@);
    }
    json::object(entries)
}

/// The tasks behind a short name, in JSON.
pub open spec fn service_json(
    alias: Seq<char>,
    target: Seq<char>,
    cluster: Seq<char>,
    service: Seq<char>,
    tasks: Seq<JsonView>,
) -> JsonView {
    JsonView::Object(
        seq![
            ("alias"@, JsonView::Str(alias)),
            ("target"@, JsonView::Str(target)),
            ("cluster"@, JsonView::Str(cluster)),
            ("service"@, JsonView::Str(service)),
            ("tasks"@, JsonView::Array(tasks)),
        ],
    )
}

/// Writes the tasks behind a short name as JSON.
pub fn build_json(
    alias: &str,
    target: &str,
    cluster: &str,
    service: &str,
    tasks: Vec<Json>,
) -> (r: Json)
    ensures
        r@ == service_json(alias@, target@, cluster@, service@, json::value_views(tasks@)),
{
    let ghost shown = json::value_views(tasks@);
    let mut entries: Vec<JsonEntry> = Vec::new();
    assert(json::entry_views(entries@) =~= Seq::empty());
    put_text(&mut entries, "alias", alias);
    put_text(&mut entries, "target", target);
    put_text(&mut entries, "cluster", cluster);
    put_text(&mut entries, "service", service);
    json::put(&mut entries, "tasks", json::array(tasks));
    assert(json::entry_views(entries@) =~= service_json(
        alias@,
        target@,
        cluster@,
        service@,
        shown,
    )->Object_0);
    json::object(entries)
}

/// Writes a JSON value over several lines.
pub fn print_json(v: &Json) -> (r: String)
    ensures
        r@ == json::pretty_json_text(v@),
{
    json::write_json_pretty(v)
}

/// Of several settings with a name, in several things that are attached to a task, the last
/// counts: that of the last thing that has one, and in that the last.
pub proof fn lemma_last_setting_counts(t: Task, name: Seq<char>, i: int, j: int)
    requires
        name.len() > 0,
        0 <= i < t.attachments@.len(),
        0 <= j < t.attachments@[i]@.len(),
        t.attachments@[i]@[j].name matches Some(n) && n@ == name,
        forall|k: int|
            j < k < t.attachments@[i]@.len() ==> !((#[trigger] t.attachments@[i]@[k]).name matches Some(
                n,
            ) && n@ == name),
        forall|a: int, b: int|
            i < a < t.attachments@.len() && 0 <= b < t.attachments@[a]@.len() ==> !((
            #[trigger] t.attachments@[a]@[b]).name matches Some(n) && n@ == name),
    ensures
        t.attachments@[i]@[j].value is None ==> attached(t, name) is None,
        t.attachments@[i]@[j].value matches Some(v) ==> attached(t, name) == Some(v@),
{
    reveal_strlit("");
    lemma_detail_skips(
        t.attachments@[i]@,
        name,
        j + 1,
        t.attachments@[i]@.len() as int,
        last_attached(t.attachments@, name, i),
    );
    lemma_attached_skips(t.attachments@, name, i + 1, t.attachments@.len() as int);
}

/// Where nothing that is attached to a task has a setting with a name, there is none.
pub proof fn lemma_no_setting(t: Task, name: Seq<char>)
    requires
        name.len() > 0,
        forall|a: int, b: int|
            0 <= a < t.attachments@.len() && 0 <= b < t.attachments@[a]@.len() ==> !((
            #[trigger] t.attachments@[a]@[b]).name matches Some(n) && n@ == name),
    ensures
        attached(t, name) is None,
{
    lemma_attached_skips(t.attachments@, name, 0, t.attachments@.len() as int);
}

proof fn lemma_detail_skips(
    list: Seq<AttachmentDetail>,
    name: Seq<char>,
    from: int,
    n: int,
    before: Option<Seq<char>>,
)
    requires
        name.len() > 0,
        0 <= from <= n <= list.len(),
        forall|k: int|
            from <= k < n ==> !((#[trigger] list[k]).name matches Some(n) && n@ == name),
    ensures
        last_detail(list, name, n, before) == last_detail(list, name, from, before),
    decreases n - from,
{
    reveal_strlit("");
    if from < n {
        assert(!(list[n - 1].name matches Some(m) && m@ == name));
        lemma_detail_skips(list, name, from, n - 1, before);
    }
}

proof fn lemma_attached_skips(list: Seq<Vec<AttachmentDetail>>, name: Seq<char>, from: int, n: int)
    requires
        name.len() > 0,
        0 <= from <= n <= list.len(),
        forall|a: int, b: int|
            from <= a < n && 0 <= b < list[a]@.len() ==> !((#[trigger] list[a]@[b]).name matches Some(
                m,
            ) && m@ == name),
    ensures
        last_attached(list, name, n) == last_attached(list, name, from),
    decreases n - from,
{
    if from < n {
        lemma_attached_skips(list, name, from, n - 1);
        lemma_detail_skips(
            list[n - 1]@,
            name,
            0,
            list[n - 1]@.len() as int,
            last_attached(list, name, n - 1),
        );
    }
}

/// How tasks are shown is named by a word: nothing for text, two words for JSON, and a
/// template behind `jsonpath=`, with or without quotes around it; any other word is refused.
pub proof fn lemma_words_for_formats(template: Seq<char>, other: Seq<char>)
    requires
        template.len() > 0,
        template[0] != '\'',
        template.last() != '\'',
        other != "json"@,
        other != "--json"@,
        !"jsonpath="@.is_prefix_of(other),
    ensures
        format_of(None) == FormatView::Text,
        format_of(Some("json"@)) == FormatView::Json,
        format_of(Some("--json"@)) == FormatView::Json,
        format_of(Some("jsonpath="@ + template)) == FormatView::Template(template),
        format_of(Some("jsonpath="@ + (seq!['\''] + template + seq!['\''])))
            == FormatView::Template(template),
        format_of(Some(other)) matches FormatView::Refused(e) && e.0
            == FormatProblem::UnknownFormat,
{
    reveal_strlit("json");
    reveal_strlit("--json");
    reveal_strlit("jsonpath=");
    lemma_template(template);
    let quoted = seq!['\''] + template + seq!['\''];
    lemma_template(quoted);
    assert(quoted.drop_first() =~= template + seq!['\'']);
    assert((template + seq!['\''])[0] == template[0]);
    assert(unquoted_front(quoted) == unquoted_front(template + seq!['\'']));
    assert(unquoted_front(template + seq!['\'']) == template + seq!['\'']);
    assert((template + seq!['\'']).drop_last() =~= template);
    assert(unquoted_back(template + seq!['\'']) == unquoted_back(template));
}

proof fn lemma_template(s: Seq<char>)
    ensures
        format_of(Some("jsonpath="@ + s)) == FormatView::Template(unquoted_back(unquoted_front(s))),
{
    reveal_strlit("json");
    reveal_strlit("--json");
    reveal_strlit("jsonpath=");
    let word = "jsonpath="@ + s;
    assert("jsonpath="@.is_prefix_of(word));
    assert(word.skip(9) =~= s);
    assert(word.len() >= 9);
    assert(word[0] == 'j');
    assert("json"@.len() == 4);
    assert("--json"@.len() == 6);
}

/// Where the value of a secret is kept is read off its ARN.
pub proof fn lemma_sources_of_secrets(a: Seq<char>, b: Seq<char>)
    ensures
        secret_source(a + ":secretsmanager:"@ + b) == "secretsmanager"@,
        !text::occurs(a + ":ssm:"@ + b, ":secretsmanager:"@) ==> secret_source(a + ":ssm:"@ + b)
            == "ssm"@,
        !text::occurs(a, ":secretsmanager:"@) && !text::occurs(a, ":ssm:"@) ==> secret_source(a)
            == "secret"@,
{
    text::lemma_occurs(a, ":secretsmanager:"@, b);
    text::lemma_occurs(a, ":ssm:"@, b);
}

/// The definition of a container is the first of its name, unless ECS put the container
/// there.
pub proof fn lemma_definition_is_first(td: TaskDefinition, name: Seq<char>, p: int)
    requires
        0 <= p <= td@.container_definitions.len(),
        forall|i: int|
            0 <= i < p ==> (#[trigger] td@.container_definitions[i]).name != Some(name),
        p < td@.container_definitions.len() ==> td@.container_definitions[p].name == Some(name),
    ensures
        "ecs-service-connect-"@.is_prefix_of(name) ==> definition_of(Some(td), name) is None,
        !"ecs-service-connect-"@.is_prefix_of(name) && p < td@.container_definitions.len()
            ==> definition_of(Some(td), name) == Some(td@.container_definitions[p]),
        p == td@.container_definitions.len() ==> definition_of(Some(td), name) is None,
        definition_of(None, name) is None,
{
    lemma_named_place_is(td@.container_definitions, name, 0, p);
}

proof fn lemma_named_place_is(list: Seq<ContainerView>, name: Seq<char>, i: int, p: int)
    requires
        0 <= i <= p <= list.len(),
        forall|j: int| i <= j < p ==> (#[trigger] list[j]).name != Some(name),
        p < list.len() ==> list[p].name == Some(name),
    ensures
        named_place(list, name, i) == p,
    decreases p - i,
{
    if i < p {
        assert(list[i].name != Some(name));
        lemma_named_place_is(list, name, i + 1, p);
    }
}

/// What is said of a container with a definition: its name, status and image, a line for
/// each variable with its value, and one for each secret with where it is kept in place of
/// its value.
pub proof fn lemma_container_is_described(
    c: TaskContainer,
    td: TaskDefinition,
    name: String,
    status: String,
    image: String,
    p: int,
)
    requires
        c.name == Some(name),
        c.last_status == Some(status),
        c.image == Some(image),
        !"ecs-service-connect-"@.is_prefix_of(name@),
        0 <= p < td@.container_definitions.len(),
        forall|i: int|
            0 <= i < p ==> (#[trigger] td@.container_definitions[i]).name != Some(name@),
        td@.container_definitions[p].name == Some(name@),
        td@.container_definitions[p].environment.len() > 0,
    ensures
        ({
            let env = td@.container_definitions[p].environment;
            let secrets = td@.container_definitions[p].secrets;
            let lines = container_lines(c, Some(td));
            &&& lines.len() == 2 + env.len() + secrets.len()
            &&& lines[0] == "    - "@ + name@ + ": "@ + status@ + " ["@ + image@ + "]"@
            &&& forall|i: int|
                #![trigger env[i]]
                0 <= i < env.len() && env[i].0 is Some && env[i].1 is Some ==> lines[2 + i]
                    == "        "@ + env[i].0->0 + "="@ + env[i].1->0
            &&& forall|i: int|
                #![trigger secrets[i]]
                0 <= i < secrets.len() ==> lines[2 + env.len() + i] == "        "@ + secrets[i].0
                    + "=*** (from "@ + secret_source(secrets[i].1) + ")"@
        }),
        container_lines(c, None).len() == 1,
{
    reveal_strlit("");
    lemma_definition_is_first(td, name@, p);
    let cd = td@.container_definitions[p];
    let env = cd.environment;
    let lines = container_lines(c, Some(td));
    let head = "    - "@ + name@;
    assert(head + ""@ =~= head);
    assert(definition_of(Some(td), name@) == Some(cd));
    let below = definition_lines(Some(cd));
    assert(lines.skip(1) =~= below);
    assert forall|i: int| #![trigger env[i]] 0 <= i < env.len() implies lines[2 + i] == env_lines(
        env,
    )[i] by {
        assert(below[1 + i] == env_lines(env)[i]);
    }
    assert forall|i: int|
        #![trigger cd.secrets[i]]
        0 <= i < cd.secrets.len() implies lines[2 + env.len() + i] == secret_lines(
        cd.secrets,
    )[i] by {
        assert(below[1 + env.len() + i] == secret_lines(cd.secrets)[i]);
    }
}

/// A container that ECS put there is said to be one, and nothing is said below it.
pub proof fn lemma_sidecar_is_described(
    c: TaskContainer,
    td: Option<TaskDefinition>,
    name: String,
    status: String,
    image: String,
)
    requires
        c.name == Some(name),
        c.last_status == Some(status),
        c.image == Some(image),
        "ecs-service-connect-"@.is_prefix_of(name@),
    ensures
        container_lines(c, td) == seq![
            "    - "@ + name@ + " (sidecar)"@ + ": "@ + status@ + " ["@ + image@ + "]"@,
        ],
{
    assert(definition_lines(None) =~= Seq::empty());
}

/// The containers of a task are described one after the other.
pub proof fn lemma_containers_in_turn(
    list: Seq<TaskContainer>,
    c: TaskContainer,
    td: Option<TaskDefinition>,
)
    ensures
        containers_lines(Seq::empty(), td, 0) == Seq::<Seq<char>>::empty(),
        containers_lines(list.push(c), td, list.len() as int + 1) == containers_lines(
            list,
            td,
            list.len() as int,
        ) + container_lines(c, td),
{
    lemma_lines_of_prefix(list, c, td, list.len() as int);
}

proof fn lemma_lines_of_prefix(
    list: Seq<TaskContainer>,
    c: TaskContainer,
    td: Option<TaskDefinition>,
    n: int,
)
    requires
        0 <= n <= list.len(),
    ensures
        containers_lines(list.push(c), td, n) == containers_lines(list, td, n),
    decreases n,
{
    if n > 0 {
        lemma_lines_of_prefix(list, c, td, n - 1);
        assert(list.push(c)[n - 1] == list[n - 1]);
    }
}

/// What is said of a task begins with its identifier and its status, tells its private
/// address, its public one where it has a network interface, and then its health and the
/// rest, in this order; an empty line ends it.
pub proof fn lemma_task_is_described(
    t: Task,
    td: Option<TaskDefinition>,
    public_ip: Option<Seq<char>>,
)
    ensures
        ({
            let lines = task_lines(t, td, public_ip);
            let private = attached(t, "privateIPv4Address"@);
            let interface = attached(t, "networkInterfaceId"@);
            let p: int = if private is Some {
                3
            } else {
                2
            };
            let q: int = if interface is Some && public_ip is Some {
                p + 1
            } else {
                p
            };
            &&& lines.len() >= q + 12
            &&& t.task_arn matches Some(arn) ==> lines[0] == "  Task:       "@ + text::after_last(
                arn@,
                '/',
            )
            &&& t.last_status matches Some(s) ==> lines[1] == "  Status:     "@ + s@
            &&& private matches Some(ip) ==> lines[2] == "  PrivateIP:  "@ + ip
            &&& q > p ==> lines[p] == "  PublicIP:   "@ + public_ip->0
            &&& t.health_status matches Some(s) ==> lines[q] == "  Health:     "@ + s@
            &&& t.health_status is None ==> lines[q] == "  Health:     "@ + "UNKNOWN"@
            &&& t.started_at is None ==> lines[q + 1] == "  Started:    "@ + "-"@
            &&& t.started_at matches Some(at) ==> lines[q + 1] == "  Started:    "@
                + instant::time_text(at.seconds(), at.nanoseconds())
            &&& t.cpu is Some && t.memory is Some ==> lines[q + 2] == "  CPU/Memory: "@ + t.cpu->0@
                + " / "@ + t.memory->0@
            &&& td is None ==> lines[q + 3] == "  Arch:       "@ + "X86_64"@
            &&& td matches Some(td) ==> (td.cpu_architecture matches Some(a) ==> lines[q + 3]
                == "  Arch:       "@ + a@)
            &&& t.capacity_provider_name matches Some(s) ==> lines[q + 4] == "  Capacity:   "@ + s@
            &&& t.platform_version matches Some(s) ==> lines[q + 5] == "  Platform:   "@ + s@
            &&& t.availability_zone matches Some(s) ==> lines[q + 6] == "  AZ:         "@ + s@
            &&& t.connectivity matches Some(s) ==> lines[q + 7] == "  Connected:  "@ + s@
            &&& t.enable_execute_command ==> lines[q + 8] == "  ExecEnabled:"@ + "true"@
            &&& !t.enable_execute_command ==> lines[q + 8] == "  ExecEnabled:"@ + "false"@
            &&& t.task_definition_arn matches Some(s) ==> lines[q + 9] == "  TaskDef:    "@ + s@
            &&& lines[q + 10] == "  Containers:"@
            &&& lines.subrange(q + 11, lines.len() - 1) == containers_lines(
                t.containers@,
                td,
                t.containers@.len() as int,
            )
            &&& lines.last() == ""@
        }),
{
    let head = task_head(t, td, public_ip);
    let below = containers_lines(t.containers@, td, t.containers@.len() as int);
    let lines = task_lines(t, td, public_ip);
    assert(lines.len() == head.len() + below.len() + 1);
    assert forall|i: int| 0 <= i < head.len() implies lines[i] == #[trigger] head[i] by {}
    assert(lines.subrange(head.len() as int, lines.len() - 1) =~= below);
}

/// A container writes to a log stream if its driver is that of CloudWatch and its options
/// name a group and a prefix.
pub proof fn lemma_place_of_log(lc: LogView)
    ensures
        log_place(None) is None,
        log_place(Some(lc)) is Some <==> lc.log_driver == "awslogs"@ && (lc.options matches Some(m)
            && m.contains_key("awslogs-group"@) && m.contains_key("awslogs-stream-prefix"@)),
        log_place(Some(lc)) matches Some(place) ==> (lc.options matches Some(m) && place.0
            == m["awslogs-group"@] && place.1 == m["awslogs-stream-prefix"@]),
{
}

/// The log that is shown with a task is that of the first container of the service itself:
/// its stream is named after the prefix, the container and the task.
pub proof fn lemma_log_of_task(td: TaskDefinitionView, id: Seq<char>, p: int, name: Seq<char>)
    requires
        0 <= p < td.container_definitions.len(),
        forall|i: int|
            0 <= i < p ==> ((#[trigger] td.container_definitions[i]).name matches Some(n)
                && "ecs-service-connect-"@.is_prefix_of(n)),
        td.container_definitions[p].name == Some(name),
        !"ecs-service-connect-"@.is_prefix_of(name),
    ensures
        log_place(td.container_definitions[p].log_configuration) is None ==> task_log(td, id)
            is None,
        log_place(td.container_definitions[p].log_configuration) matches Some(place) ==> task_log(
            td,
            id,
        ) == Some((place.0, place.1 + "/"@ + name + "/"@ + id)),
{
    let list = td.container_definitions;
    container::lemma_app_is_first(list);
    let q = container::app_place(list, 0);
    if q < p {
        assert(list[q].name is Some);
    }
    if p < q {
        assert(list[p].name is Some);
    }
}

/// The last output of a task is shown below a line that says how many messages there are,
/// each on a line of its own; without any there is nothing.
pub proof fn lemma_last_output(messages: Seq<Option<String>>, i: int)
    requires
        0 <= i < messages.len(),
    ensures
        log_lines(Seq::empty()) == Seq::<Seq<char>>::empty(),
        log_lines(messages).len() == messages.len() + 2,
        log_lines(messages)[0] == "  Logs (last "@ + number::decimal(messages.len()) + "):"@,
        messages[i] matches Some(m) ==> log_lines(messages)[1 + i] == "    "@ + m@,
        log_lines(messages).last() == ""@,
{
}

/// In JSON a variable stands for its value, and the last of several with a name counts.
pub proof fn lemma_variables_in_json(
    list: Seq<(Option<Seq<char>>, Option<Seq<char>>)>,
    k: Seq<char>,
    v: Seq<char>,
)
    ensures
        shown_env(Seq::empty()) == Map::<Seq<char>, Seq<char>>::empty(),
        shown_env(list.push((Some(k), Some(v)))) == shown_env(list).insert(k, v),
        shown_env(list.push((Some(k), None))) == shown_env(list).insert(k, ""@),
{
    assert(list.push((Some(k), Some(v))).drop_last() =~= list);
    assert(list.push((Some(k), None)).drop_last() =~= list);
}

/// A task in JSON has its parts under their names, in this order.
pub proof fn lemma_task_in_json(
    v: JsonView,
    t: Task,
    td: Option<TaskDefinition>,
    public_ip: Option<Seq<char>>,
)
    requires
        is_task_json(v, t, td, public_ip),
    ensures
        ({
            let m = v->Object_0;
            let private = attached(t, "privateIPv4Address"@);
            &&& m.len() == 16
            &&& t.task_arn matches Some(arn) ==> m[0] == (
                "task_id"@,
                JsonView::Str(text::after_last(arn@, '/')),
            )
            &&& t.last_status matches Some(s) ==> m[1] == ("status"@, JsonView::Str(s@))
            &&& t.health_status matches Some(s) ==> m[2] == ("health"@, JsonView::Str(s@))
            &&& t.started_at matches Some(at) ==> m[3] == (
                "started"@,
                JsonView::Str(instant::time_text(at.seconds(), at.nanoseconds())),
            )
            &&& t.started_at is None ==> m[3] == ("started"@, JsonView::Str(""@))
            &&& t.cpu matches Some(s) ==> m[4] == ("cpu"@, JsonView::Str(s@))
            &&& t.memory matches Some(s) ==> m[5] == ("memory"@, JsonView::Str(s@))
            &&& td is None ==> m[6] == ("arch"@, JsonView::Str("X86_64"@))
            &&& t.capacity_provider_name matches Some(s) ==> m[7] == (
                "capacity"@,
                JsonView::Str(s@),
            )
            &&& t.platform_version matches Some(s) ==> m[8] == (
                "platform_version"@,
                JsonView::Str(s@),
            )
            &&& t.availability_zone matches Some(s) ==> m[9] == ("az"@, JsonView::Str(s@))
            &&& t.connectivity matches Some(s) ==> m[10] == ("connectivity"@, JsonView::Str(s@))
            &&& m[11] == ("exec_enabled"@, JsonView::Bool(t.enable_execute_command))
            &&& t.task_definition_arn matches Some(s) ==> m[12] == (
                "task_definition"@,
                JsonView::Str(s@),
            )
            &&& private matches Some(ip) ==> m[13] == ("private_ip"@, JsonView::Str(ip))
            &&& private is None ==> m[13] == ("private_ip"@, JsonView::Null)
            &&& attached(t, "networkInterfaceId"@) is Some && public_ip is Some ==> m[14] == (
                "public_ip"@,
                JsonView::Str(public_ip->0),
            )
            &&& attached(t, "networkInterfaceId"@) is None ==> m[14] == (
                "public_ip"@,
                JsonView::Null,
            )
            &&& m[15].0 == "containers"@
        }),
{
    let m = v->Object_0;
    let known = task_members(t, td, public_ip);
    assert forall|i: int| 0 <= i < 15 implies m[i] == #[trigger] known[i] by {
        assert(m.take(15)[i] == m[i]);
    }
}

/// A container in JSON has its name, status and image, and says whether ECS put it there;
/// one that ECS put there has nothing more.
pub proof fn lemma_container_in_json(
    v: JsonView,
    c: TaskContainer,
    td: Option<TaskDefinition>,
    name: String,
)
    requires
        is_container_json(v, c, td),
        c.name == Some(name),
    ensures
        v->Object_0.len() >= 4,
        v->Object_0[0] == ("name"@, JsonView::Str(name@)),
        c.last_status matches Some(s) ==> v->Object_0[1] == ("status"@, JsonView::Str(s@)),
        c.image matches Some(s) ==> v->Object_0[2] == ("image"@, JsonView::Str(s@)),
        v->Object_0[3] == (
            "sidecar"@,
            JsonView::Bool("ecs-service-connect-"@.is_prefix_of(name@)),
        ),
        td is None || "ecs-service-connect-"@.is_prefix_of(name@) ==> v->Object_0.len() == 4,
{
    let m = v->Object_0;
    let known = container_members(c);
    if definition_of(td, name@) is Some {
        assert forall|i: int| 0 <= i < 4 implies m[i] == #[trigger] known[i] by {
            assert(m.take(4)[i] == m[i]);
        }
    }
}

/// The tasks behind a short name stand in JSON below the name, its target and the cluster
/// and service of that.
pub proof fn lemma_service_in_json(
    alias: Seq<char>,
    target: Seq<char>,
    cluster: Seq<char>,
    service: Seq<char>,
    tasks: Seq<JsonView>,
)
    ensures
        service_json(alias, target, cluster, service, tasks) matches JsonView::Object(m)
            && m.len() == 5 && m[0] == ("alias"@, JsonView::Str(alias)) && m[1] == (
            "target"@,
            JsonView::Str(target),
        ) && m[2] == ("cluster"@, JsonView::Str(cluster)) && m[3] == (
            "service"@,
            JsonView::Str(service),
        ) && m[4] == ("tasks"@, JsonView::Array(tasks)),
{
}

/// An object of strings has a member for each entry of its map, with the key and the text of
/// that entry, and no others; the keys stand in order.
pub proof fn lemma_object_of_texts(v: JsonView, m: Map<Seq<char>, Seq<char>>) -> (p: Seq<
    (Seq<char>, Seq<char>),
>)
    requires
        is_text_object(v, m),
    ensures
        textmap::collected(p) == m,
        v is Object && v->Object_0.len() == p.len(),
        forall|i: int|
            0 <= i < p.len() ==> #[trigger] v->Object_0[i] == (p[i].0, JsonView::Str(p[i].1)),
        forall|i: int, j: int|
            0 <= i < j < p.len() ==> crate::order::precedes(
                (#[trigger] p[i]).0,
                (#[trigger] p[j]).0,
            ),
{
    let s = choose|s: StrMap<String>| #[trigger]
        s.ordered() && textmap::text_map(s) == m && v->Object_0 == textmap::pairs(s).map_values(
            |kv: (Seq<char>, Seq<char>)| (kv.0, JsonView::Str(kv.1)),
        );
    textmap::lemma_collected(s);
    textmap::pairs(s)
}

/// A container with a definition shows its variables and its secrets in JSON, under their
/// names.
pub proof fn lemma_definition_in_json(
    v: JsonView,
    c: TaskContainer,
    td: TaskDefinition,
    name: String,
    p: int,
)
    requires
        is_container_json(v, c, Some(td)),
        c.name == Some(name),
        !"ecs-service-connect-"@.is_prefix_of(name@),
        0 <= p < td@.container_definitions.len(),
        forall|i: int|
            0 <= i < p ==> (#[trigger] td@.container_definitions[i]).name != Some(name@),
        td@.container_definitions[p].name == Some(name@),
    ensures
        v->Object_0.len() == 6,
        v->Object_0[4].0 == "env"@,
        is_text_object(v->Object_0[4].1, shown_env(td@.container_definitions[p].environment)),
        v->Object_0[5].0 == "secrets"@,
        is_text_object(
            v->Object_0[5].1,
            textmap::collected(td@.container_definitions[p].secrets),
        ),
{
    lemma_definition_is_first(td, name@, p);
}

/// What ECS does not say of a task or of a container is shown by a question mark; a task
/// without a known definition runs on the common architecture.
pub proof fn lemma_unknown_parts(t: Task, td: TaskDefinition, c: TaskContainer)
    ensures
        t.task_arn is None ==> task_id(t) == "?"@,
        t.last_status is None ==> task_head(t, None, None)[1] == "  Status:     "@ + "?"@,
        ({
            let head = task_head(t, None, None);
            let n = head.len();
            &&& n >= 13
            &&& t.cpu is None && t.memory is None ==> head[n - 9] == "  CPU/Memory: "@ + "?"@
                + " / "@ + "?"@
            &&& t.capacity_provider_name is None ==> head[n - 7] == "  Capacity:   "@ + "?"@
            &&& t.platform_version is None ==> head[n - 6] == "  Platform:   "@ + "?"@
            &&& t.availability_zone is None ==> head[n - 5] == "  AZ:         "@ + "?"@
            &&& t.connectivity is None ==> head[n - 4] == "  Connected:  "@ + "?"@
            &&& t.task_definition_arn is None ==> head[n - 2] == "  TaskDef:    "@ + "?"@
        }),
        td.cpu_architecture is None ==> task_arch(Some(td)) == "X86_64"@,
        ({
            let m = task_members(t, None, None);
            &&& t.task_arn is None ==> m[0].1 == JsonView::Str("?"@)
            &&& t.last_status is None ==> m[1].1 == JsonView::Str("?"@)
            &&& t.health_status is None ==> m[2].1 == JsonView::Str("UNKNOWN"@)
            &&& t.cpu is None ==> m[4].1 == JsonView::Str("?"@)
            &&& t.memory is None ==> m[5].1 == JsonView::Str("?"@)
            &&& t.capacity_provider_name is None ==> m[7].1 == JsonView::Str("?"@)
            &&& t.platform_version is None ==> m[8].1 == JsonView::Str("?"@)
            &&& t.availability_zone is None ==> m[9].1 == JsonView::Str("?"@)
            &&& t.connectivity is None ==> m[10].1 == JsonView::Str("?"@)
            &&& t.task_definition_arn is None ==> m[12].1 == JsonView::Str("?"@)
        }),
        c.name is None ==> container_members(c)[0].1 == JsonView::Str("?"@),
        c.last_status is None ==> container_members(c)[1].1 == JsonView::Str("?"@),
        c.image is None ==> container_members(c)[2].1 == JsonView::Str("?"@),
{
    reveal_strlit("?");
    text::lemma_after_last("?"@, '/');
    let id = text::after_last("?"@, '/');
    if id.len() < "?"@.len() {
        assert("?"@[0] == '/');
    }
    assert("?"@.take(0) + id =~= id);
}

/// The log of a container without a name is named after the application.
pub proof fn lemma_log_without_name(td: TaskDefinitionView, id: Seq<char>)
    requires
        td.container_definitions.len() > 0,
        td.container_definitions[0].name is None,
    ensures
        log_place(td.container_definitions[0].log_configuration) matches Some(place) ==> task_log(
            td,
            id,
        ) == Some((place.0, place.1 + "/"@ + "app"@ + "/"@ + id)),
{
    container::lemma_app_is_first(td.container_definitions);
}

} // verus!
