//! Creating, listing and deleting schedules.

use crate::config;
use crate::config::{Config, ConfigProblem};
use crate::error::Error;
use crate::json;
use crate::json::{Json, JsonEntry, JsonView};
use crate::number;
use crate::order;
use crate::scheduler::infra;
use crate::scheduler::infra::{
    sanitize_explicit_name, sanitize_schedule_name, validate_role_arn, validate_schedule_expression,
    ScheduleProblem, ServiceError,
};
use crate::service;
use crate::text;
use vstd::prelude::*;

verus! {

/// What a schedule is to do.
pub struct CreateScheduleOpts<'a> {
    pub name: &'a str,
    pub count: i32,
    pub schedule_expression: &'a str,
    pub timezone: &'a str,
    pub role_arn: &'a str,
    pub explicit_name: Option<&'a str>,
}

/// What can keep a schedule from being created.
#[derive(Debug, Clone, Copy, PartialEq, Eq, Structural)]
pub enum CreateProblem {
    Config(ConfigProblem),
    Schedule(ScheduleProblem),
}

/// What stands against creating a schedule, whatever services it is for.
pub open spec fn options_problem(cfg: Config, opts: CreateScheduleOpts) -> Option<
    (CreateProblem, Seq<char>),
> {
    if opts.count < 0 {
        Some(
            (
                CreateProblem::Config(ConfigProblem::NegativeCount),
                "count must be >= 0, got "@ + number::decimal_int(opts.count as int),
            ),
        )
    } else if let Some(p) = infra::expression_problem(opts.schedule_expression@) {
        Some((CreateProblem::Schedule(p.0), p.1))
    } else if let Some(p) = infra::arn_problem(opts.role_arn@) {
        Some((CreateProblem::Schedule(p.0), p.1))
    } else if cfg.targets(opts.name@).len() == 0 {
        let p = config::empty_group(opts.name@);
        Some((CreateProblem::Config(p.0), p.1))
    } else {
        None
    }
}

/// Checks what a schedule is to do, and lists the short names of the services
/// that it is for.
pub fn check_options(cfg: &Config, opts: &CreateScheduleOpts) -> (r: Result<
    Vec<String>,
    Error<CreateProblem>,
>)
    ensures
        match r {
            Ok(list) => options_problem(*cfg, *opts) is None && text::texts(list@) == cfg.targets(
                opts.name@,
            ) && list@.len() > 0,
            Err(e) => options_problem(*cfg, *opts) == Some(e@),
        },
{
    match service::check_count(opts.count) {
        Err(e) => {
            return Err(Error { kind: CreateProblem::Config(e.kind), message: e.message });
        },
        Ok(()) => {},
    }
    match validate_schedule_expression(opts.schedule_expression) {
        Err(e) => {
            return Err(Error { kind: CreateProblem::Schedule(e.kind), message: e.message });
        },
        Ok(()) => {},
    }
    match validate_role_arn(opts.role_arn) {
        Err(e) => {
            return Err(Error { kind: CreateProblem::Schedule(e.kind), message: e.message });
        },
        Ok(()) => {},
    }
    match cfg.resolve_some_targets(opts.name) {
        Err(e) => Err(Error { kind: CreateProblem::Config(e.kind), message: e.message }),
        Ok(list) => Ok(list),
    }
}

/// The name of the schedule for one of `total` services: the one that was asked
/// for, with the short name behind it if there are several; or else one after
/// the service and the number of tasks.
pub open spec fn name_for(
    explicit: Option<Seq<char>>,
    alias: Seq<char>,
    count: i32,
    total: int,
) -> Seq<char> {
    match explicit {
        Some(n) => infra::fitted(
            if total == 1 {
                n
            } else {
                n + "-"@ + alias
            },
            64,
        ),
        None => infra::schedule_name(alias, count),
    }
}

/// What EventBridge hands to ECS when a schedule is due.
pub open spec fn target_json(cluster: Seq<char>, service: Seq<char>, count: i32) -> JsonView {
    JsonView::Object(
        seq![
            ("Cluster"@, JsonView::Str(cluster)),
            ("DesiredCount"@, JsonView::Int(count as i64)),
            ("Service"@, JsonView::Str(service)),
        ],
    )
}

proof fn lemma_target_is_flat(cluster: Seq<char>, service: Seq<char>, count: i32)
    ensures
        json::is_flat(target_json(cluster, service, count)),
{
    reveal_strlit("Cluster");
    reveal_strlit("DesiredCount");
    reveal_strlit("Service");
    reveal_with_fuel(order::precedes, 2);
    let a = "Cluster"@;
    let b = "DesiredCount"@;
    let c = "Service"@;
    assert(a[0] == 'C' && b[0] == 'D' && c[0] == 'S');
    assert(order::precedes(a, b));
    assert(order::precedes(b, c));
    assert(order::precedes(a, c));
}

fn target_input(cluster: &str, service: &str, count: i32) -> (r: String)
    ensures
        r@ == json::json_text(target_json(cluster@, service@, count)),
        json::parsed_json(r@) == Some(target_json(cluster@, service@, count)),
{
    let mut entries: Vec<JsonEntry> = Vec::new();
    assert(json::entry_views(entries@) =~= Seq::empty());
    json::put(&mut entries, "Cluster", json::string(cluster));
    json::put(&mut entries, "DesiredCount", Json::Int(count as i64));
    json::put(&mut entries, "Service", json::string(service));
    assert(json::entry_views(entries@) =~= target_json(cluster@, service@, count)->Object_0);
    let target = json::object(entries);
    proof {
        lemma_target_is_flat(cluster@, service@, count);
    }
    json::write_json(&target)
}

/// A schedule to be created.
#[derive(Debug)]
pub struct ScheduleRequest {
    pub name: String,
    pub group_name: String,
    pub schedule_expression: String,
    pub timezone: String,
    pub description: String,
    pub target_arn: String,
    pub role_arn: String,
    pub input: String,
    pub cluster: String,
    pub service: String,
}

/// How the target of a schedule is shown.
pub open spec fn shown_target(cluster: Seq<char>, service: Seq<char>, count: int) -> Seq<char> {
    cluster + "/"@ + service + " → "@ + number::decimal_int(count)
}

/// Describes the schedule for one of `total` services.
pub fn schedule_for(
    cfg: &Config,
    opts: &CreateScheduleOpts,
    alias: &str,
    total: usize,
) -> (r: Result<ScheduleRequest, Error<ConfigProblem>>)
    ensures
        match r {
            Ok(s) => {
                &&& cfg.alias_result(alias@) == Ok::<(Seq<char>, Seq<char>), config::Problem>(
                    (s.cluster@, s.service@),
                )
                &&& s.name@ == name_for(
                    match opts.explicit_name {
                        Some(n) => Some(n@),
                        None => None,
                    },
                    alias@,
                    opts.count,
                    total as int,
                )
                &&& infra::is_name(s.name@)
                &&& s.group_name@ == cfg.schedule_group()
                &&& s.schedule_expression@ == opts.schedule_expression@
                &&& s.timezone@ == opts.timezone@
                &&& s.description@ == "ecsctl: scale "@ + alias@ + " ("@ + s.cluster@ + "/"@
                    + s.service@ + ") to "@ + number::decimal_int(opts.count as int)
                &&& s.target_arn@ == "arn:aws:scheduler:::aws-sdk:ecs:updateService"@
                &&& s.role_arn@ == opts.role_arn@
                &&& s.input@ == json::json_text(
                    target_json(s.cluster@, s.service@, opts.count),
                )
                &&& displayed(json::parsed_json(s.input@)) == Some(
                    shown_target(s.cluster@, s.service@, opts.count as int),
                )
            },
            Err(e) => cfg.alias_result(alias@) == Err::<(Seq<char>, Seq<char>), config::Problem>(
                e@,
            ),
        },
{
    let (cluster, service) = match cfg.resolve_alias(alias) {
        Ok(pair) => pair,
        Err(e) => {
            return Err(e);
        },
    };
    let name = match opts.explicit_name {
        Some(n) => {
            if total == 1 {
                sanitize_explicit_name(n)
            } else {
                let mut raw = String::from_str(n);
                raw.append("-");
                raw.append(alias);
                sanitize_explicit_name(raw.as_str())
            }
        },
        None => sanitize_schedule_name(alias, opts.count),
    };
    let mut description = String::from_str("ecsctl: scale ");
    description.append(alias);
    description.append(" (");
    description.append(cluster);
    description.append("/");
    description.append(service);
    description.append(") to ");
    description.append(number::to_decimal_int(opts.count as i128).as_str());
    proof {
        lemma_target_is_displayed(cluster@, service@, opts.count);
    }
    Ok(
        ScheduleRequest {
            name,
            group_name: String::from_str(cfg.scheduler_group_name()),
            schedule_expression: String::from_str(opts.schedule_expression),
            timezone: String::from_str(opts.timezone),
            description,
            target_arn: String::from_str("arn:aws:scheduler:::aws-sdk:ecs:updateService"),
            role_arn: String::from_str(opts.role_arn),
            input: target_input(cluster, service, opts.count),
            cluster: String::from_str(cluster),
            service: String::from_str(service),
        },
    )
}

/// What the input of a schedule's target says: the service and how many tasks it
/// is scaled to, where the input says so.
pub open spec fn displayed(input: Option<JsonView>) -> Option<Seq<char>> {
    match input {
        Some(v) => match (
            json::member(v, "Cluster"@),
            json::member(v, "Service"@),
            json::member(v, "DesiredCount"@),
        ) {
            (
                Some(JsonView::Str(cluster)),
                Some(JsonView::Str(service)),
                Some(JsonView::Int(count)),
            ) => Some(shown_target(cluster, service, count as int)),
            _ => None,
        },
        None => None,
    }
}

/// What is written into a schedule's target is shown when schedules are listed.
pub proof fn lemma_target_is_displayed(cluster: Seq<char>, service: Seq<char>, count: i32)
    ensures
        displayed(Some(target_json(cluster, service, count))) == Some(
            shown_target(cluster, service, count as int),
        ),
{
    reveal_strlit("Cluster");
    reveal_strlit("DesiredCount");
    reveal_strlit("Service");
    reveal_with_fuel(json::member_place, 4);
    let entries = target_json(cluster, service, count)->Object_0;
    assert("Cluster"@.len() != "DesiredCount"@.len());
    assert("Service"@.len() != "DesiredCount"@.len());
    assert("Cluster"@[0] != "Service"@[0]);
    assert(json::member_place(entries, "Cluster"@, 0) == 0);
    assert(json::member_place(entries, "DesiredCount"@, 0) == 1);
    assert(json::member_place(entries, "Service"@, 0) == 2);
}

/// Says what the input of a schedule's target says.
pub fn display_target(input: &Json) -> (r: Option<String>)
    ensures
        text::opt_text(r) == displayed(Some(input@)),
{
    let cluster = match input.get("Cluster") {
        Some(Json::Str(s)) => s,
        _ => {
            return None;
        },
    };
    let service = match input.get("Service") {
        Some(Json::Str(s)) => s,
        _ => {
            return None;
        },
    };
    let count: i64 = match input.get("DesiredCount") {
        Some(Json::Int(n)) => *n,
        _ => {
            return None;
        },
    };
    let mut m = String::from_str(cluster.as_str());
    m.append("/");
    m.append(service.as_str());
    m.append(" → ");
    m.append(number::to_decimal_int(count as i128).as_str());
    Some(m)
}

/// Says what the input of a schedule's target, as a text, says.
pub fn parse_target_display(input: &str) -> (r: Option<String>)
    ensures
        text::opt_text(r) == displayed(json::parsed_json(input@)),
{
    match json::parse_json(input) {
        Some(j) => display_target(&j),
        None => None,
    }
}

/// What EventBridge says of a schedule.
#[derive(Debug)]
pub struct ScheduleDetail {
    pub schedule_expression: Option<String>,
    pub timezone: Option<String>,
    /// The input of the schedule's target.
    pub input: Option<String>,
}

/// The line above a list of schedules.
pub fn list_header() -> (r: String)
    ensures
        r@ == text::padded("NAME"@, 40) + " "@ + text::padded("SCHEDULE"@, 28) + " "@
            + text::padded("TIMEZONE"@, 14) + " "@ + text::padded("STATE"@, 8) + " TARGET"@,
{
    let mut line = String::new();
    text::push_padded(&mut line, "NAME", 40);
    assert(line@ =~= text::padded("NAME"@, 40));
    line.append(" ");
    text::push_padded(&mut line, "SCHEDULE", 28);
    line.append(" ");
    text::push_padded(&mut line, "TIMEZONE", 14);
    line.append(" ");
    text::push_padded(&mut line, "STATE", 8);
    line.append(" TARGET");
    line
}

/// A line of a list of schedules: the name, the expression, the time zone, the
/// state and the target.
pub open spec fn row_text(
    name: Seq<char>,
    expression: Seq<char>,
    timezone: Seq<char>,
    state: Seq<char>,
    target: Seq<char>,
) -> Seq<char> {
    text::padded(name, 40) + " "@ + text::padded(expression, 28) + " "@ + text::padded(
        timezone,
        14,
    ) + " "@ + text::padded(state, 8) + " "@ + target
}

/// What a list of schedules shows for the target of a schedule.
pub open spec fn target_column(input: Option<String>) -> Seq<char> {
    match input {
        Some(input) => match displayed(json::parsed_json(input@)) {
            Some(target) => target,
            None => "-"@,
        },
        None => "-"@,
    }
}

/// Writes a line of a list of schedules. The detail is absent where it could not
/// be looked up.
pub fn list_row(name: &str, detail: &Option<ScheduleDetail>, state: &Option<String>) -> (r: String)
    ensures
        r@ == (match *detail {
            Some(d) => row_text(
                name@,
                text::text_or(d.schedule_expression, "-"@),
                text::text_or(d.timezone, "UTC"@),
                text::text_or(*state, "?"@),
                target_column(d.input),
            ),
            None => row_text(name@, "-"@, "-"@, text::text_or(*state, "?"@), "-"@),
        }),
{
    let shown_state = text::str_or(state, "?");
    let (expression, timezone, target) = match detail {
        Some(d) => {
            let expression = text::str_or(&d.schedule_expression, "-");
            let timezone = text::str_or(&d.timezone, "UTC");
            let target = match &d.input {
                Some(input) => match parse_target_display(input.as_str()) {
                    Some(target) => target,
                    None => String::from_str("-"),
                },
                None => String::from_str("-"),
            };
            (expression, timezone, target)
        },
        None => ("-", "-", String::from_str("-")),
    };
    let mut line = String::new();
    text::push_padded(&mut line, name, 40);
    assert(line@ =~= text::padded(name@, 40));
    line.append(" ");
    text::push_padded(&mut line, expression, 28);
    line.append(" ");
    text::push_padded(&mut line, timezone, 14);
    line.append(" ");
    text::push_padded(&mut line, shown_state, 8);
    line.append(" ");
    line.append(target.as_str());
    line
}

/// Checks the name of a schedule to be deleted.
pub fn check_schedule_name(name: &str) -> (r: Result<(), Error<ScheduleProblem>>)
    ensures
        r is Ok <==> name@.len() > 0,
        r matches Err(e) ==> e@ == (
            ScheduleProblem::EmptyName,
            "schedule name cannot be empty"@,
        ),
{
    if name.unicode_len() == 0 {
        return Err(
            Error {
                kind: ScheduleProblem::EmptyName,
                message: String::from_str("schedule name cannot be empty"),
            },
        );
    }
    Ok(())
}

/// The complaint about a schedule that could not be deleted because there is
/// none; nothing where it failed for another reason.
pub fn missing_schedule(name: &str, group_name: &str, e: &Option<ServiceError>) -> (r: Option<
    Error<ScheduleProblem>,
>)
    ensures
        r is Some <==> infra::is_missing(*e),
        r matches Some(p) ==> p@ == (
            ScheduleProblem::ScheduleNotFound,
            "schedule '"@ + name@ + "' not found in group '"@ + group_name@ + "'"@,
        ),
{
    if infra::is_not_found(e) {
        let mut m = String::from_str("schedule '");
        m.append(name);
        m.append("' not found in group '");
        m.append(group_name);
        m.append("'");
        Some(Error { kind: ScheduleProblem::ScheduleNotFound, message: m })
    } else {
        None
    }
}

/// A schedule can be created exactly if the number of tasks is not negative, the expression
/// and the role can be taken, and it is for some service. A negative number is named before
/// anything else.
pub proof fn lemma_what_can_be_created(cfg: Config, opts: CreateScheduleOpts)
    ensures
        options_problem(cfg, opts) is None <==> opts.count >= 0 && infra::expression_problem(
            opts.schedule_expression@,
        ) is None && infra::arn_problem(opts.role_arn@) is None && cfg.targets(opts.name@).len()
            > 0,
        opts.count < 0 ==> (options_problem(cfg, opts) matches Some(e) && e.0
            == CreateProblem::Config(ConfigProblem::NegativeCount)),
        options_problem(cfg, opts) matches Some(e) ==> (e.0 matches CreateProblem::Schedule(p)
            ==> (infra::expression_problem(opts.schedule_expression@) matches Some(f) && f.0 == p)
            || (infra::arn_problem(opts.role_arn@) matches Some(f) && f.0 == p)),
{
}

/// A name that is asked for names the schedule of a single service; the schedules of several
/// are told apart by the short names of the services behind it. Without one the schedule is
/// named after the service and the number of tasks.
pub proof fn lemma_names_of_schedules(name: Seq<char>, alias: Seq<char>, count: i32, total: int)
    requires
        name.len() + 1 + alias.len() <= 64,
        forall|i: int|
            0 <= i < name.len() ==> (('0' <= #[trigger] name[i] <= '9') || ('a' <= name[i] <= 'z')
                || ('A' <= name[i] <= 'Z') || name[i] == '-' || name[i] == '_' || name[i] == '.'),
        forall|i: int|
            0 <= i < alias.len() ==> (('0' <= #[trigger] alias[i] <= '9') || ('a' <= alias[i]
                <= 'z') || ('A' <= alias[i] <= 'Z') || alias[i] == '-' || alias[i] == '_'
                || alias[i] == '.'),
    ensures
        name_for(Some(name), alias, count, 1) == name,
        total != 1 ==> name_for(Some(name), alias, count, total) == name + seq!['-'] + alias,
        alias.len() + number::decimal_int(count as int).len() <= 47 ==> name_for(
            None,
            alias,
            count,
            total,
        ) == "ecsctl-scale-"@ + alias + "-to-"@ + number::decimal_int(count as int),
{
    reveal_strlit("-");
    assert("-"@ =~= seq!['-']);
    let long = name + "-"@ + alias;
    assert forall|i: int| 0 <= i < long.len() implies (('0' <= #[trigger] long[i] <= '9') || ('a'
        <= long[i] <= 'z') || ('A' <= long[i] <= 'Z') || long[i] == '-' || long[i] == '_'
        || long[i] == '.') by {
        if i < name.len() {
            assert(long[i] == name[i]);
        } else if i > name.len() {
            assert(long[i] == alias[i - name.len() - 1]);
        }
    }
    infra::lemma_fitted_name(long, 64, name.len() as int);
    if name.len() > 0 {
        infra::lemma_fitted_name(name, 64, 0);
    } else {
        assert(infra::name_chars(name) =~= name);
    }
    infra::lemma_schedule_name_tells(alias, count);
}

/// What EventBridge hands to ECS names the cluster, the service and the number of tasks,
/// under the names that ECS has for them, and nothing else.
pub proof fn lemma_target_asks_for(cluster: Seq<char>, service: Seq<char>, count: i32)
    ensures
        json::member(target_json(cluster, service, count), "Cluster"@) == Some(
            JsonView::Str(cluster),
        ),
        json::member(target_json(cluster, service, count), "Service"@) == Some(
            JsonView::Str(service),
        ),
        json::member(target_json(cluster, service, count), "DesiredCount"@) == Some(
            JsonView::Int(count as i64),
        ),
        target_json(cluster, service, count)->Object_0.len() == 3,
{
    reveal_strlit("Cluster");
    reveal_strlit("Service");
    reveal_strlit("DesiredCount");
    let entries = target_json(cluster, service, count)->Object_0;
    assert("Cluster"@.len() == 7 && "Service"@.len() == 7 && "DesiredCount"@.len() == 12);
    assert("Cluster"@[0] == 'C' && "Service"@[0] == 'S');
    json::lemma_first_member(
        seq![],
        "Cluster"@,
        entries[0].1,
        seq![entries[1], entries[2]],
        JsonView::Null,
    );
    json::lemma_first_member(
        seq![entries[0]],
        "DesiredCount"@,
        entries[1].1,
        seq![entries[2]],
        JsonView::Null,
    );
    json::lemma_first_member(
        seq![entries[0], entries[1]],
        "Service"@,
        entries[2].1,
        seq![],
        JsonView::Null,
    );
    assert(entries =~= Seq::<(Seq<char>, JsonView)>::empty().push(entries[0]) + seq![
        entries[1],
        entries[2],
    ]);
    assert(entries =~= seq![entries[0]].push(entries[1]) + seq![entries[2]]);
    assert(entries =~= seq![entries[0], entries[1]].push(entries[2]) + seq![]);
}

/// The input of a target is shown where it is an object with a cluster, a service and a
/// number of tasks, whatever else it holds; and not where one of them is missing.
pub proof fn lemma_what_is_displayed(v: JsonView, cluster: Seq<char>, service: Seq<char>, count: i64)
    ensures
        json::member(v, "Cluster"@) == Some(JsonView::Str(cluster)) && json::member(v, "Service"@)
            == Some(JsonView::Str(service)) && json::member(v, "DesiredCount"@) == Some(
            JsonView::Int(count),
        ) ==> displayed(Some(v)) == Some(
            cluster + "/"@ + service + " → "@ + number::decimal_int(count as int),
        ),
        json::member(v, "Cluster"@) is None || json::member(v, "Service"@) is None || json::member(
            v,
            "DesiredCount"@,
        ) is None ==> displayed(Some(v)) is None,
        displayed(None) is None,
{
}

/// In a list of schedules the columns begin at fixed places, as far as what stands in them
/// fits: the name at the front, then the expression, the time zone, the state and the
/// target, with a space before each.
pub proof fn lemma_columns_of_row(
    name: Seq<char>,
    expression: Seq<char>,
    timezone: Seq<char>,
    state: Seq<char>,
    target: Seq<char>,
)
    requires
        name.len() <= 40,
        expression.len() <= 28,
        timezone.len() <= 14,
        state.len() <= 8,
    ensures
        ({
            let row = row_text(name, expression, timezone, state, target);
            &&& row.len() == 94 + target.len()
            &&& row.take(name.len() as int) == name
            &&& row.subrange(41, 41int + expression.len()) == expression
            &&& row.subrange(70, 70int + timezone.len()) == timezone
            &&& row.subrange(85, 85int + state.len()) == state
            &&& row.skip(94) == target
        }),
{
    reveal_strlit(" ");
    text::lemma_padded(name, 40);
    text::lemma_padded(expression, 28);
    text::lemma_padded(timezone, 14);
    text::lemma_padded(state, 8);
    let a = text::padded(name, 40);
    let b = text::padded(expression, 28);
    let c = text::padded(timezone, 14);
    let d = text::padded(state, 8);
    let row = row_text(name, expression, timezone, state, target);
    assert(a.take(name.len() as int) =~= name);
    assert(b.take(expression.len() as int) =~= expression);
    assert(c.take(timezone.len() as int) =~= timezone);
    assert(d.take(state.len() as int) =~= state);
    assert(row.take(name.len() as int) =~= a.take(name.len() as int));
    assert(row.subrange(41, 41int + expression.len()) =~= b.take(expression.len() as int));
    assert(row.subrange(70, 70int + timezone.len()) =~= c.take(timezone.len() as int));
    assert(row.subrange(85, 85int + state.len()) =~= d.take(state.len() as int));
    assert(row.skip(94) =~= target);
}

/// In a list of schedules a hyphen stands for a target whose input is missing or says
/// nothing of a service.
pub proof fn lemma_target_in_list(input: String)
    ensures
        target_column(None) == "-"@,
        json::parsed_json(input@) is None ==> target_column(Some(input)) == "-"@,
        json::parsed_json(input@) matches Some(v) ==> (displayed(Some(v)) matches Some(s)
            ==> target_column(Some(input)) == s),
{
}

} // verus!
