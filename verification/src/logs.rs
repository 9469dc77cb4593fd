//! Where the output of a service is found.

use crate::alias;
use crate::alias::{newest_task, Task};
use crate::container;
use crate::container::find_main_container;
use crate::describe;
use crate::describe::{stream_name, task_id_of};
use crate::ecs::{ContainerDefinition, ContainerView, TaskDefinition};
use crate::error::Error;
use crate::instant;
use crate::instant::Instant;
use crate::text;
use crate::text::same;
use vstd::prelude::*;

verus! {

/// What can keep the output of a service from being found.
#[derive(Debug, Clone, Copy, PartialEq, Eq, Structural)]
pub enum LogProblem {
    NoTasks,
    NoNewestTask,
    NoTaskDefinition,
    NoAppContainer,
    NoLogConfiguration,
    NoLogOptions,
    NoGroup,
    NoPrefix,
    GroupMissing,
    ReadFailed,
}

/// A problem and the message that explains it.
pub type Problem = (LogProblem, Seq<char>);

fn problem(kind: LogProblem, message: &str) -> (r: Error<LogProblem>)
    ensures
        r@ == (kind, message@),
{
    Error { kind, message: String::from_str(message) }
}

/// The complaint about a service that has no tasks, and had none lately.
pub fn no_tasks(name: &str) -> (r: Error<LogProblem>)
    ensures
        r@ == (
            LogProblem::NoTasks,
            "no tasks found for '"@ + name@ + "' (running or recently stopped)"@,
        ),
{
    let mut m = String::from_str("no tasks found for '");
    m.append(name);
    m.append("' (running or recently stopped)");
    Error { kind: LogProblem::NoTasks, message: m }
}

/// What follows a list of tasks.
#[derive(Debug)]
pub enum ListStep {
    /// Look these tasks up.
    Describe(Vec<String>),
    /// List the tasks that have stopped.
    ListStopped,
    Failed(Error<LogProblem>),
}

/// Decides what follows a list of the running tasks of a service, or of those that
/// have stopped: only where none is running, one that has stopped is looked at.
pub fn after_list(stopped: bool, arns: Vec<String>, name: &str) -> (r: ListStep)
    ensures
        match r {
            ListStep::Describe(list) => arns@.len() > 0 && list == arns,
            ListStep::ListStopped => arns@.len() == 0 && !stopped,
            ListStep::Failed(e) => arns@.len() == 0 && stopped && e@ == (
                LogProblem::NoTasks,
                "no tasks found for '"@ + name@ + "' (running or recently stopped)"@,
            ),
        },
{
    if arns.len() > 0 {
        ListStep::Describe(arns)
    } else if !stopped {
        ListStep::ListStopped
    } else {
        ListStep::Failed(no_tasks(name))
    }
}

/// What a task comes to whose output is looked for: its identifier and its task
/// definition.
pub open spec fn task_result(t: Task) -> Result<(Seq<char>, Seq<char>), Problem> {
    match t.task_definition_arn {
        Some(arn) => Ok((describe::task_id(t), arn@)),
        None => Err((LogProblem::NoTaskDefinition, "no task def ARN"@)),
    }
}

/// Finds the task whose output is looked for, which is the newest one: its place,
/// its identifier and its task definition.
pub fn choose_task(list: &Vec<Task>) -> (r: Result<(usize, String, String), Error<LogProblem>>)
    ensures
        match r {
            Ok((p, id, arn)) => alias::is_newest(list@, false, p as int) && task_result(
                list@[p as int],
            ) == Ok::<(Seq<char>, Seq<char>), Problem>((id@, arn@)),
            Err(e) => {
                ||| list@.len() == 0 && e@ == (LogProblem::NoNewestTask, "no tasks found"@)
                ||| exists|p: int| #[trigger]
                    alias::is_newest(list@, false, p) && task_result(list@[p]) == Err::<
                        (Seq<char>, Seq<char>),
                        Problem,
                    >(e@)
            },
        },
{
    match newest_task(list, false) {
        Some(p) => {
            let t = &list[p];
            match &t.task_definition_arn {
                Some(arn) => Ok((p, String::from_str(task_id_of(t)), arn.clone())),
                None => Err(problem(LogProblem::NoTaskDefinition, "no task def ARN")),
            }
        },
        None => {
            assert(list@.len() == 0) by {
                if list@.len() > 0 {
                    assert(!alias::counts(list@[0], false));
                }
            }
            Err(problem(LogProblem::NoNewestTask, "no tasks found"))
        },
    }
}

/// Where the output of a container goes.
#[derive(Debug)]
pub struct LogTarget {
    pub group: String,
    /// What the streams of the container begin with.
    pub stream_prefix: String,
    /// The stream of one task.
    pub stream: String,
}

/// Where the output of a container of a task goes: the group, what the streams
/// of the container begin with, and the stream of the task.
pub open spec fn log_result(cd: ContainerView, id: Seq<char>) -> Result<
    (Seq<char>, Seq<char>, Seq<char>),
    Problem,
> {
    match cd.log_configuration {
        None => Err((LogProblem::NoLogConfiguration, "no log configuration"@)),
        Some(lc) => match lc.options {
            None => Err((LogProblem::NoLogOptions, "no log options"@)),
            Some(m) => if !m.contains_key("awslogs-group"@) {
                Err((LogProblem::NoGroup, "no awslogs-group"@))
            } else if !m.contains_key("awslogs-stream-prefix"@) {
                Err((LogProblem::NoPrefix, "no awslogs-stream-prefix"@))
            } else {
                let prefix = m["awslogs-stream-prefix"@];
                let name = match cd.name {
                    Some(name) => name,
                    None => "app"@,
                };
                Ok(
                    (
                        m["awslogs-group"@],
                        prefix + "/"@ + name + "/"@,
                        prefix + "/"@ + name + "/"@ + id,
                    ),
                )
            },
        },
    }
}

fn container_log(cd: &ContainerDefinition, id: &str) -> (r: Result<LogTarget, Error<LogProblem>>)
    ensures
        match r {
            Ok(t) => log_result(cd@, id@) == Ok::<(Seq<char>, Seq<char>, Seq<char>), Problem>(
                (t.group@, t.stream_prefix@, t.stream@),
            ),
            Err(e) => log_result(cd@, id@) == Err::<(Seq<char>, Seq<char>, Seq<char>), Problem>(
                e@,
            ),
        },
{
    let lc = match &cd.log_configuration {
        Some(lc) => lc,
        None => {
            return Err(problem(LogProblem::NoLogConfiguration, "no log configuration"));
        },
    };
    let options = match &lc.options {
        Some(options) => options,
        None => {
            return Err(problem(LogProblem::NoLogOptions, "no log options"));
        },
    };
    let group = match options.get("awslogs-group") {
        Some(group) => group,
        None => {
            return Err(problem(LogProblem::NoGroup, "no awslogs-group"));
        },
    };
    let prefix = match options.get("awslogs-stream-prefix") {
        Some(prefix) => prefix.as_str(),
        None => {
            return Err(problem(LogProblem::NoPrefix, "no awslogs-stream-prefix"));
        },
    };
    let name = text::str_or(&cd.name, "app");
    let mut stream_prefix = String::from_str(prefix);
    stream_prefix.append("/");
    stream_prefix.append(name);
    stream_prefix.append("/");
    Ok(LogTarget { group: group.clone(), stream_prefix, stream: stream_name(prefix, name, id) })
}

/// Finds where the output of the application of a task goes.
pub fn find_log(td: &TaskDefinition, id: &str) -> (r: Result<LogTarget, Error<LogProblem>>)
    ensures
        td.container_definitions@.len() == 0 ==> (r matches Err(e) && e@ == (
            LogProblem::NoAppContainer,
            "no app container found"@,
        )),
        forall|p: int| #[trigger]
            container::is_main(td@.container_definitions, p) ==> match r {
                Ok(t) => log_result(td@.container_definitions[p], id@) == Ok::<
                    (Seq<char>, Seq<char>, Seq<char>),
                    Problem,
                >((t.group@, t.stream_prefix@, t.stream@)),
                Err(e) => log_result(td@.container_definitions[p], id@) == Err::<
                    (Seq<char>, Seq<char>, Seq<char>),
                    Problem,
                >(e@),
            },
{
    assert(container::views(td.container_definitions@) == td@.container_definitions);
    match find_main_container(&td.container_definitions) {
        Some(cd) => {
            proof {
                let p = choose|p: int| #[trigger]
                    container::is_main(td@.container_definitions, p) && *cd
                        == td.container_definitions@[p];
                assert forall|q: int| #[trigger]
                    container::is_main(td@.container_definitions, q) implies q == p by {
                    container::lemma_one_main(td@.container_definitions, p, q);
                }
                assert(td@.container_definitions[p] == cd@);
            }
            container_log(cd, id)
        },
        None => Err(problem(LogProblem::NoAppContainer, "no app container found")),
    }
}

/// How CloudWatch answered a request that it refused.
#[derive(Debug)]
pub struct LogError {
    /// Whether something that was named does not exist.
    pub not_found: bool,
    pub message: Option<String>,
}

/// What does not exist.
#[derive(Debug, Clone, Copy, PartialEq, Eq, Structural)]
pub enum NotFound {
    /// The stream: its task has not written anything yet.
    Stream,
    /// The group: something is set up wrongly.
    Group,
}

/// What does not exist, where that is why a request failed. A request that
/// CloudWatch did not answer failed for another reason.
pub open spec fn missing(e: Option<LogError>) -> Option<NotFound> {
    match e {
        Some(e) => if !e.not_found {
            None
        } else if text::occurs(
            text::text_or(e.message, ""@).map_values(|c: char| text::ascii_small(c)),
            "log group"@,
        ) {
            Some(NotFound::Group)
        } else {
            Some(NotFound::Stream)
        },
        None => None,
    }
}

/// Tells a missing stream from a missing group.
pub fn classify_not_found(e: &Option<LogError>) -> (r: Option<NotFound>)
    ensures
        r == missing(*e),
{
    match e {
        Some(e) => {
            if !e.not_found {
                return None;
            }
            let message = text::ascii_lowercase(text::str_or(&e.message, ""));
            if text::contains(message.as_str(), "log group") {
                Some(NotFound::Group)
            } else {
                Some(NotFound::Stream)
            }
        },
        None => None,
    }
}

/// The complaint about a request that failed; none where only the stream does
/// not exist yet.
pub open spec fn failure(e: Option<LogError>, group: Seq<char>) -> Option<Problem> {
    match missing(e) {
        Some(NotFound::Stream) => None,
        Some(NotFound::Group) => Some(
            (LogProblem::GroupMissing, "log group '"@ + group + "' does not exist"@),
        ),
        None => Some((LogProblem::ReadFailed, "GetLogEvents failed"@)),
    }
}

/// The complaint about a request that failed; none where only the stream does
/// not exist yet, which may still come.
pub fn read_failure(e: &Option<LogError>, group: &str) -> (r: Option<Error<LogProblem>>)
    ensures
        match r {
            Some(p) => failure(*e, group@) == Some(p@),
            None => failure(*e, group@) is None,
        },
{
    match classify_not_found(e) {
        Some(NotFound::Stream) => None,
        Some(NotFound::Group) => {
            let mut m = String::from_str("log group '");
            m.append(group);
            m.append("' does not exist");
            Some(Error { kind: LogProblem::GroupMissing, message: m })
        },
        None => Some(problem(LogProblem::ReadFailed, "GetLogEvents failed")),
    }
}

/// How many pages are read of a stream that seems to be empty.
pub const EMPTY_PAGE_LIMIT: usize = 3;

/// The answer to a request for a page of a stream.
#[derive(Debug)]
pub enum PageAnswer {
    /// The lines of the page, and the token of the page before it.
    Page { messages: Vec<Option<String>>, backward_token: Option<String> },
    Failed(Option<LogError>),
}

/// What follows a page.
#[derive(Debug)]
pub enum PageStep {
    /// These are the last lines of the stream.
    Done(Vec<String>),
    /// The page before has to be read.
    Again,
    Failed(Error<LogProblem>),
}

/// What follows a page.
#[verifier::ext_equal]
pub enum StepView {
    Done(Seq<Seq<char>>),
    Again,
    Failed(Problem),
}

impl View for PageStep {
    type V = StepView;

    open spec fn view(&self) -> StepView {
        match self {
            PageStep::Done(lines) => StepView::Done(text::texts(lines@)),
            PageStep::Again => StepView::Again,
            PageStep::Failed(e) => StepView::Failed(e@),
        }
    }
}

/// The lines of a page.
pub open spec fn message_texts(messages: Seq<Option<String>>) -> Seq<Seq<char>> {
    messages.map_values(|m: Option<String>| text::text_or(m, ""@))
}

fn lines_of(messages: &Vec<Option<String>>) -> (r: Vec<String>)
    ensures
        text::texts(r@) == message_texts(messages@),
{
    let mut lines: Vec<String> = Vec::new();
    let ghost all = message_texts(messages@);
    assert(text::texts(lines@) =~= all.take(0));
    let mut i: usize = 0;
    while i < messages.len()
        invariant
            i <= messages@.len(),
            all == message_texts(messages@),
            text::texts(lines@) == all.take(i as int),
        decreases messages@.len() - i,
    {
        let ghost before = text::texts(lines@);
        lines.push(String::from_str(text::str_or(&messages[i], "")));
        assert(text::texts(lines@) =~= before.push(all[i as int]));
        assert(all.take(i + 1) =~= all.take(i as int).push(all[i as int]));
        i = i + 1;
    }
    assert(all.take(all.len() as int) =~= all);
    lines
}

/// A search for the last lines of a stream, from its end backward.
#[derive(Debug)]
pub struct PageReader {
    /// How many pages have been read.
    pub pages: usize,
    /// The token of the page to be read next.
    pub token: Option<String>,
}

/// What follows an answer. An empty page does not mean that the stream is empty:
/// only a token that no longer changes does, or a third such page.
pub open spec fn after_page(
    pages: int,
    token: Option<Seq<char>>,
    answer: PageAnswer,
    group: Seq<char>,
) -> StepView {
    match answer {
        PageAnswer::Page { messages, backward_token } => if messages@.len() > 0 {
            StepView::Done(message_texts(messages@))
        } else if backward_token is None || text::opt_text(backward_token) == token || pages + 1
            >= 3 {
            StepView::Done(Seq::empty())
        } else {
            StepView::Again
        },
        PageAnswer::Failed(e) => match failure(e, group) {
            None => StepView::Done(Seq::empty()),
            Some(p) => StepView::Failed(p),
        },
    }
}

fn same_token(a: &Option<String>, b: &Option<String>) -> (r: bool)
    ensures
        r == (text::opt_text(*a) == text::opt_text(*b)),
{
    match (a, b) {
        (Some(x), Some(y)) => same(x.as_str(), y.as_str()),
        (None, None) => true,
        _ => false,
    }
}

impl PageReader {
    /// Begins a search.
    pub fn new() -> (r: PageReader)
        ensures
            r.pages == 0,
            r.token is None,
    {
        PageReader { pages: 0, token: None }
    }

    /// Goes on with a search after an answer.
    pub fn step(&mut self, answer: PageAnswer, group: &str) -> (r: PageStep)
        requires
            old(self).pages < 3,
        ensures
            r@ == after_page(
                old(self).pages as int,
                text::opt_text(old(self).token),
                answer,
                group@,
            ),
            r@ is Again ==> final(self).pages == old(self).pages + 1 && final(self).pages < 3
                && answer is Page && text::opt_text(final(self).token) == text::opt_text(
                answer->backward_token,
            ),
            !(r@ is Again) ==> *final(self) == *old(self),
    {
        match answer {
            PageAnswer::Page { messages, backward_token } => {
                if messages.len() > 0 {
                    return PageStep::Done(lines_of(&messages));
                }
                let lines: Vec<String> = Vec::new();
                assert(text::texts(lines@) =~= Seq::empty());
                if backward_token.is_none() || same_token(&backward_token, &self.token)
                    || self.pages + 1 >= EMPTY_PAGE_LIMIT {
                    return PageStep::Done(lines);
                }
                self.pages = self.pages + 1;
                self.token = backward_token;
                PageStep::Again
            },
            PageAnswer::Failed(e) => match read_failure(&e, group) {
                None => {
                    let lines: Vec<String> = Vec::new();
                    assert(text::texts(lines@) =~= Seq::empty());
                    PageStep::Done(lines)
                },
                Some(p) => PageStep::Failed(p),
            },
        }
    }
}

/// The answer to a request for what is new in a stream.
#[derive(Debug)]
pub enum FollowAnswer {
    /// The new lines, and the token of what comes after them.
    Page { messages: Vec<Option<String>>, forward_token: Option<String> },
    Failed(Option<LogError>),
}

/// What is shown of an answer.
#[derive(Debug)]
pub struct Shown {
    pub lines: Vec<String>,
    /// What the reader is told besides.
    pub note: Option<String>,
}

/// A stream that is followed.
#[derive(Debug)]
pub struct Follower {
    /// Whether an answer has come already.
    pub started: bool,
    /// The token of what is read next.
    pub token: Option<String>,
}

/// What is shown of an answer: the lines and a note.
pub open spec fn shown(
    started: bool,
    answer: FollowAnswer,
    group: Seq<char>,
    stream: Seq<char>,
) -> Result<(Seq<Seq<char>>, Option<Seq<char>>), Problem> {
    match answer {
        FollowAnswer::Page { messages, .. } => Ok(
            (
                message_texts(messages@),
                if !started && messages@.len() == 0 {
                    Some(
                        "ecsctl: no log events yet in stream '"@ + stream
                            + "' — waiting for new events..."@,
                    )
                } else {
                    None
                },
            ),
        ),
        FollowAnswer::Failed(e) => match failure(e, group) {
            None => Ok(
                (
                    Seq::empty(),
                    if !started {
                        Some(
                            "ecsctl: log stream '"@ + stream
                                + "' does not exist yet — waiting for the task to start logging..."@,
                        )
                    } else {
                        None
                    },
                ),
            ),
            Some(p) => Err(p),
        },
    }
}

impl Follower {
    /// Begins to follow a stream.
    pub fn new() -> (r: Follower)
        ensures
            !r.started,
            r.token is None,
    {
        Follower { started: false, token: None }
    }

    /// Takes an answer. A stream that does not exist yet may still come.
    pub fn step(&mut self, answer: FollowAnswer, group: &str, stream: &str) -> (r: Result<
        Shown,
        Error<LogProblem>,
    >)
        ensures
            match r {
                Ok(s) => shown(old(self).started, answer, group@, stream@) == Ok::<
                    (Seq<Seq<char>>, Option<Seq<char>>),
                    Problem,
                >((text::texts(s.lines@), text::opt_text(s.note))),
                Err(e) => shown(old(self).started, answer, group@, stream@) == Err::<
                    (Seq<Seq<char>>, Option<Seq<char>>),
                    Problem,
                >(e@),
            },
            r is Ok ==> final(self).started,
            r is Err ==> *final(self) == *old(self),
            answer is Page ==> final(self).token == answer->forward_token,
            answer is Failed ==> final(self).token == old(self).token,
    {
        match answer {
            FollowAnswer::Page { messages, forward_token } => {
                let lines = lines_of(&messages);
                let note = if !self.started && messages.len() == 0 {
                    let mut m = String::from_str("ecsctl: no log events yet in stream '");
                    m.append(stream);
                    m.append("' — waiting for new events...");
                    Some(m)
                } else {
                    None
                };
                self.started = true;
                self.token = forward_token;
                Ok(Shown { lines, note })
            },
            FollowAnswer::Failed(e) => match read_failure(&e, group) {
                Some(p) => Err(p),
                None => {
                    let lines: Vec<String> = Vec::new();
                    assert(text::texts(lines@) =~= Seq::empty());
                    let note = if !self.started {
                        let mut m = String::from_str("ecsctl: log stream '");
                        m.append(stream);
                        m.append(
                            "' does not exist yet — waiting for the task to start logging...",
                        );
                        Some(m)
                    } else {
                        None
                    };
                    self.started = true;
                    Ok(Shown { lines, note })
                },
            },
        }
    }
}

/// A task that has stopped.
#[derive(Debug)]
pub struct StoppedTask {
    pub task_arn: Option<String>,
    pub stopped_at: Option<Instant>,
    pub started_at: Option<Instant>,
}

/// When a task was last seen: when it stopped, or else when it started.
pub open spec fn last_seen(t: StoppedTask) -> Option<Instant> {
    if t.stopped_at is Some {
        t.stopped_at
    } else {
        t.started_at
    }
}

fn seen_before(a: &StoppedTask, b: &StoppedTask) -> (r: bool)
    ensures
        r == instant::earlier_or_none(last_seen(*a), last_seen(*b)),
{
    let x = if a.stopped_at.is_some() {
        &a.stopped_at
    } else {
        &a.started_at
    };
    let y = if b.stopped_at.is_some() {
        &b.stopped_at
    } else {
        &b.started_at
    };
    instant::is_before_opt(x, y)
}

/// Whether the task at one place is looked at before that at another: the one
/// that was seen later is, and the first in the list where both were seen at the
/// same time.
pub open spec fn looked_at_first(list: Seq<StoppedTask>, a: int, b: int) -> bool {
    let x = last_seen(list[a]);
    let y = last_seen(list[b]);
    instant::earlier_or_none(y, x) || (!instant::earlier_or_none(x, y) && a < b)
}

/// Whether a list of places holds all tasks in the order in which they are looked
/// at.
pub open spec fn is_probe_order(list: Seq<StoppedTask>, places: Seq<usize>) -> bool {
    &&& places.len() == list.len()
    &&& places.no_duplicates()
    &&& forall|i: int| 0 <= i < places.len() ==> #[trigger] places[i] < list.len()
    &&& forall|i: int, j: int|
        0 <= i < j < places.len() ==> looked_at_first(
            list,
            #[trigger] places[i] as int,
            #[trigger] places[j] as int,
        )
}

proof fn lemma_first_of_three(list: Seq<StoppedTask>, a: int, b: int, c: int)
    requires
        looked_at_first(list, a, b),
        looked_at_first(list, b, c),
    ensures
        looked_at_first(list, a, c),
{
}

/// Lists the places of the tasks in the order in which they are looked at.
fn probe_order(list: &Vec<StoppedTask>) -> (r: Vec<usize>)
    ensures
        is_probe_order(list@, r@),
{
    let mut out: Vec<usize> = Vec::new();
    let mut i: usize = 0;
    while i < list.len()
        invariant
            i <= list@.len(),
            out@.len() == i,
            out@.no_duplicates(),
            forall|k: int| 0 <= k < i ==> #[trigger] out@[k] < i,
            forall|a: int, b: int|
                0 <= a < b < i ==> looked_at_first(
                    list@,
                    #[trigger] out@[a] as int,
                    #[trigger] out@[b] as int,
                ),
        decreases list@.len() - i,
    {
        let mut p: usize = i;
        while p > 0 && seen_before(&list[out[p - 1]], &list[i])
            invariant
                i < list@.len(),
                p <= i,
                out@.len() == i,
                forall|k: int| 0 <= k < i ==> #[trigger] out@[k] < i,
                forall|k: int|
                    p <= k < i ==> looked_at_first(list@, i as int, #[trigger] out@[k] as int),
            decreases p,
        {
            p = p - 1;
            assert(looked_at_first(list@, i as int, out@[p as int] as int));
        }
        proof {
            if p > 0 {
                let q = out@[p - 1] as int;
                assert(looked_at_first(list@, q, i as int));
                assert forall|k: int| 0 <= k < p implies looked_at_first(
                    list@,
                    #[trigger] out@[k] as int,
                    i as int,
                ) by {
                    if k < p - 1 {
                        lemma_first_of_three(list@, out@[k] as int, q, i as int);
                    }
                }
            }
        }
        let ghost before = out@;
        out.insert(p, i);
        proof {
            assert forall|a: int, b: int| 0 <= a < b < out@.len() implies looked_at_first(
                list@,
                #[trigger] out@[a] as int,
                #[trigger] out@[b] as int,
            ) by {
                let pa = if a < p { a } else { a - 1 };
                let pb = if b < p { b } else { b - 1 };
                if a != p {
                    assert(out@[a] == before[pa]);
                }
                if b != p {
                    assert(out@[b] == before[pb]);
                }
            }
            assert forall|a: int, b: int|
                0 <= a < out@.len() && 0 <= b < out@.len() && a != b implies out@[a] != out@[b] by {
                let pa = if a < p { a } else { a - 1 };
                let pb = if b < p { b } else { b - 1 };
                if a != p {
                    assert(out@[a] == before[pa]);
                }
                if b != p {
                    assert(out@[b] == before[pb]);
                }
            }
            assert forall|k: int| 0 <= k < out@.len() implies #[trigger] out@[k] < i + 1 by {
                let pk = if k < p { k } else { k - 1 };
                if k != p {
                    assert(out@[k] == before[pk]);
                }
            }
        }
        i = i + 1;
    }
    out
}

/// How many stopped tasks are looked at.
pub const STOPPED_TASK_PROBE_LIMIT: usize = 5;

/// The stream of a task that has stopped.
pub open spec fn stopped_stream(prefix: Seq<char>, t: StoppedTask) -> Seq<char> {
    prefix + text::after_last(text::text_or(t.task_arn, "?"@), '/')
}

/// The streams of the first `n` tasks in an order, without one that has been read
/// already.
pub open spec fn streams_upto(
    list: Seq<StoppedTask>,
    places: Seq<usize>,
    prefix: Seq<char>,
    exclude: Seq<char>,
    n: int,
) -> Seq<Seq<char>>
    decreases n,
{
    if n <= 0 {
        Seq::empty()
    } else {
        let before = streams_upto(list, places, prefix, exclude, n - 1);
        let stream = stopped_stream(prefix, list[places[n - 1] as int]);
        if stream == exclude {
            before
        } else {
            before.push(stream)
        }
    }
}

/// The streams that are read in place of an empty one: those of the five tasks that
/// stopped last.
pub open spec fn probed_streams(
    list: Seq<StoppedTask>,
    prefix: Seq<char>,
    exclude: Seq<char>,
) -> Seq<Seq<char>> {
    let places = choose|places: Seq<usize>| is_probe_order(list, places);
    streams_upto(
        list,
        places,
        prefix,
        exclude,
        if list.len() < 5 {
            list.len() as int
        } else {
            5
        },
    )
}

/// Lists the streams that are read in place of an empty one: those of the five
/// tasks that stopped last.
pub fn fallback_streams(list: &Vec<StoppedTask>, stream_prefix: &str, exclude: &str) -> (r: Vec<
    String,
>)
    ensures
        exists|places: Seq<usize>| #[trigger]
            is_probe_order(list@, places) && text::texts(r@) == streams_upto(
                list@,
                places,
                stream_prefix@,
                exclude@,
                if places.len() < 5 {
                    places.len() as int
                } else {
                    5
                },
            ),
        text::texts(r@) == probed_streams(list@, stream_prefix@, exclude@),
{
    let places = probe_order(list);
    let n: usize = if places.len() < STOPPED_TASK_PROBE_LIMIT {
        places.len()
    } else {
        STOPPED_TASK_PROBE_LIMIT
    };
    let mut out: Vec<String> = Vec::new();
    assert(text::texts(out@) =~= Seq::empty());
    let mut i: usize = 0;
    while i < n
        invariant
            n <= places@.len(),
            i <= n,
            is_probe_order(list@, places@),
            text::texts(out@) == streams_upto(
                list@,
                places@,
                stream_prefix@,
                exclude@,
                i as int,
            ),
        decreases n - i,
    {
        let ghost before = text::texts(out@);
        let t = &list[places[i]];
        let mut stream = String::from_str(stream_prefix);
        stream.append(text::last_piece(text::str_or(&t.task_arn, "?"), '/'));
        let ghost name = stream@;
        if !same(stream.as_str(), exclude) {
            out.push(stream);
            assert(text::texts(out@) =~= before.push(name));
        }
        i = i + 1;
    }
    proof {
        lemma_one_probe_order(
            list@,
            places@,
            choose|places: Seq<usize>| is_probe_order(list@, places),
        );
    }
    out
}

/// There is one order in which tasks are looked at.
pub proof fn lemma_one_probe_order(list: Seq<StoppedTask>, a: Seq<usize>, b: Seq<usize>)
    requires
        is_probe_order(list, a),
        is_probe_order(list, b),
    ensures
        a == b,
{
    assert forall|i: int| 0 <= i < a.len() implies a[i] == b[i] by {
        lemma_same_upto(list, a, b, i + 1);
    }
    assert(a =~= b);
}

proof fn lemma_same_upto(list: Seq<StoppedTask>, a: Seq<usize>, b: Seq<usize>, n: int)
    requires
        is_probe_order(list, a),
        is_probe_order(list, b),
        0 <= n <= a.len(),
    ensures
        forall|i: int| 0 <= i < n ==> #[trigger] a[i] == b[i],
    decreases n,
{
    if n > 0 {
        let i = n - 1;
        lemma_same_upto(list, a, b, i);
        if a[i] != b[i] {
            lemma_place_held(list, a, b[i]);
            lemma_place_held(list, b, a[i]);
            let j = choose|j: int| 0 <= j < a.len() && a[j] == b[i];
            let k = choose|k: int| 0 <= k < b.len() && b[k] == a[i];
            if j < i {
                assert(a[j] == b[j]);
            }
            if k < i {
                assert(a[k] == b[k]);
            }
            assert(looked_at_first(list, a[i] as int, a[j] as int));
            assert(looked_at_first(list, b[i] as int, b[k] as int));
        }
    }
}

/// An order of all tasks holds every one of them.
proof fn lemma_place_held(list: Seq<StoppedTask>, places: Seq<usize>, p: usize)
    requires
        is_probe_order(list, places),
        p < list.len(),
    ensures
        exists|j: int| 0 <= j < places.len() && places[j] == p,
{
    if !places.contains(p) {
        let ints = places.map_values(|n: usize| n as int);
        assert(ints.no_duplicates());
        ints.unique_seq_to_set();
        let range = vstd::set_lib::set_int_range(0, list.len() as int);
        vstd::set_lib::lemma_int_range(0, list.len() as int);
        let rest = range.remove(p as int);
        assert(ints.to_set().subset_of(rest)) by {
            assert forall|x: int| ints.to_set().contains(x) implies rest.contains(x) by {
                let i = ints.index_of(x);
                assert(ints[i] == x);
                assert(places[i] < list.len());
                assert(places.contains(places[i]));
            }
        }
        vstd::set_lib::lemma_len_subset(ints.to_set(), rest);
        assert(false);
    }
}

/// A log stream.
#[derive(Debug)]
pub struct LogStream {
    pub name: Option<String>,
    pub last_event_timestamp: Option<i64>,
}

/// Whether a stream can be read in place of an empty one: it has a name and a
/// last event, and is not the one that has been read already.
pub open spec fn is_candidate(s: LogStream, exclude: Seq<char>) -> bool {
    s.name is Some && s.last_event_timestamp is Some && s.name->0@ != exclude
}

/// The stream with the latest event, of a stream that was found before and the
/// first `n` of a list; of several, the first.
pub open spec fn best_upto(
    found: Option<(i64, Seq<char>)>,
    list: Seq<LogStream>,
    exclude: Seq<char>,
    n: int,
) -> Option<(i64, Seq<char>)>
    decreases n,
{
    if n <= 0 {
        found
    } else {
        let best = best_upto(found, list, exclude, n - 1);
        let s = list[n - 1];
        let later = match best {
            Some((ts, _)) => s.last_event_timestamp->0 > ts,
            None => true,
        };
        if is_candidate(s, exclude) && later {
            Some((s.last_event_timestamp->0, s.name->0@))
        } else {
            best
        }
    }
}

/// What was found.
pub open spec fn found_view(found: Option<(i64, String)>) -> Option<(i64, Seq<char>)> {
    match found {
        Some((ts, name)) => Some((ts, name@)),
        None => None,
    }
}

/// Goes on looking for the stream with the latest event.
fn better_stream(found: Option<(i64, String)>, list: &Vec<LogStream>, exclude: &str) -> (r:
    Option<(i64, String)>)
    ensures
        found_view(r) == best_upto(found_view(found), list@, exclude@, list@.len() as int),
{
    let ghost start = found_view(found);
    let mut best = found;
    let mut i: usize = 0;
    while i < list.len()
        invariant
            i <= list@.len(),
            found_view(best) == best_upto(start, list@, exclude@, i as int),
        decreases list@.len() - i,
    {
        let s = &list[i];
        match (&s.name, s.last_event_timestamp) {
            (Some(name), Some(ts)) => {
                if !same(name.as_str(), exclude) {
                    let later = match &best {
                        Some((known, _)) => ts > *known,
                        None => true,
                    };
                    if later {
                        best = Some((ts, name.clone()));
                    }
                }
            },
            _ => {},
        }
        i = i + 1;
    }
    best
}

/// How many pages of streams are looked at.
pub const STREAM_PAGE_LIMIT: usize = 4;

/// A search for the stream with the latest event.
#[derive(Debug)]
pub struct StreamScan {
    /// How many pages have been looked at.
    pub pages: usize,
    /// The token of the page to be read next.
    pub token: Option<String>,
    /// The stream that was found: its latest event, and its name.
    pub found: Option<(i64, String)>,
}

impl StreamScan {
    /// Begins a search.
    pub fn new() -> (r: StreamScan)
        ensures
            r.pages == 0,
            r.token is None,
            r.found is None,
    {
        StreamScan { pages: 0, token: None, found: None }
    }

    /// Takes a page, and tells whether another one has to be read.
    pub fn step(&mut self, list: &Vec<LogStream>, next_token: Option<String>, exclude: &str) -> (r:
        bool)
        requires
            old(self).pages < 4,
        ensures
            r == (next_token is Some && old(self).pages < 3),
            final(self).pages == old(self).pages + 1,
            final(self).token == next_token,
            found_view(final(self).found) == best_upto(
                found_view(old(self).found),
                list@,
                exclude@,
                list@.len() as int,
            ),
    {
        let found = self.found.take();
        self.found = better_stream(found, list, exclude);
        self.pages = self.pages + 1;
        self.token = next_token;
        self.token.is_some() && self.pages < STREAM_PAGE_LIMIT
    }
}

/// No stream that can be read has a later event than the one that is found.
pub proof fn lemma_best_is_latest(
    found: Option<(i64, Seq<char>)>,
    list: Seq<LogStream>,
    exclude: Seq<char>,
    n: int,
)
    requires
        0 <= n <= list.len(),
    ensures
        forall|i: int|
            0 <= i < n && is_candidate(#[trigger] list[i], exclude) ==> (best_upto(
                found,
                list,
                exclude,
                n,
            ) matches Some((ts, _)) && list[i].last_event_timestamp->0 <= ts),
        found matches Some((known, _)) ==> (best_upto(found, list, exclude, n) matches Some((ts, _))
            && known <= ts),
    decreases n,
{
    if n > 0 {
        lemma_best_is_latest(found, list, exclude, n - 1);
    }
}

/// A task is found by its identifier, which stands behind the last slash of its ARN, and by
/// its task definition; without a task definition its output cannot be found.
pub proof fn lemma_task_to_look_at(t: Task)
    ensures
        task_result(t) is Err <==> t.task_definition_arn is None,
        t.task_definition_arn is None ==> (task_result(t) matches Err(e) && e.0
            == LogProblem::NoTaskDefinition),
        t.task_definition_arn matches Some(arn) ==> (t.task_arn matches Some(own) ==> task_result(t)
            == Ok::<(Seq<char>, Seq<char>), Problem>((text::after_last(own@, '/'), arn@))),
{
}

/// The output of a container is found exactly if its options name a group and a prefix; its
/// stream is then named after the prefix, the container and the task. Otherwise what is
/// missing is named.
pub proof fn lemma_where_output_goes(cd: ContainerView, id: Seq<char>)
    ensures
        cd.log_configuration is None ==> (log_result(cd, id) matches Err(e) && e.0
            == LogProblem::NoLogConfiguration),
        cd.log_configuration matches Some(lc) ==> (lc.options is None ==> (log_result(
            cd,
            id,
        ) matches Err(e) && e.0 == LogProblem::NoLogOptions)),
        cd.log_configuration matches Some(lc) ==> (lc.options matches Some(m) ==> ({
            let group = m.contains_key("awslogs-group"@);
            let prefix = m.contains_key("awslogs-stream-prefix"@);
            &&& !group ==> (log_result(cd, id) matches Err(e) && e.0 == LogProblem::NoGroup)
            &&& group && !prefix ==> (log_result(cd, id) matches Err(e) && e.0
                == LogProblem::NoPrefix)
            &&& group && prefix ==> (log_result(cd, id) matches Ok(r) && r.0
                == m["awslogs-group"@] && r.2 == r.1 + id && (cd.name matches Some(name) ==> r.1
                == m["awslogs-stream-prefix"@] + "/"@ + name + "/"@))
        })),
{
}

/// A request fails for something that does not exist only where CloudWatch says so; it is
/// the group where the message speaks of one, in whatever letters, and the stream otherwise.
pub proof fn lemma_what_is_missing(e: LogError, before: Seq<char>, words: Seq<char>, after: Seq<char>)
    requires
        words.len() == 9,
        forall|i: int| 0 <= i < 9 ==> text::ascii_small(#[trigger] words[i]) == "log group"@[i],
    ensures
        missing(None) is None,
        !e.not_found ==> missing(Some(e)) is None,
        e.not_found && e.message is None ==> missing(Some(e)) == Some(NotFound::Stream),
        e.message matches Some(m) ==> (e.not_found && m@ == before + words + after ==> missing(
            Some(e),
        ) == Some(NotFound::Group)),
        e.message matches Some(m) ==> (e.not_found && !text::occurs(
            m@.map_values(|c: char| text::ascii_small(c)),
            "log group"@,
        ) ==> missing(Some(e)) == Some(NotFound::Stream)),
{
    reveal_strlit("log group");
    reveal_strlit("");
    let small = |c: char| text::ascii_small(c);
    assert(words.map_values(small) =~= "log group"@);
    assert((before + words + after).map_values(small) =~= before.map_values(small)
        + words.map_values(small) + after.map_values(small));
    text::lemma_occurs(before.map_values(small), "log group"@, after.map_values(small));
    assert(""@.map_values(small).len() == 0);
    assert(!text::occurs(""@.map_values(small), "log group"@));
}

/// A stream that does not exist yet is no failure; a missing group and any other refusal
/// are.
pub proof fn lemma_what_fails(e: Option<LogError>, group: Seq<char>)
    ensures
        failure(e, group) is None <==> missing(e) == Some(NotFound::Stream),
        missing(e) == Some(NotFound::Group) <==> (failure(e, group) matches Some(p) && p.0
            == LogProblem::GroupMissing),
        failure(None, group) matches Some(p) && p.0 == LogProblem::ReadFailed,
        e matches Some(x) ==> (!x.not_found ==> (failure(e, group) matches Some(p) && p.0
            == LogProblem::ReadFailed)),
{
}

/// The lines of the first page that has any are shown as they are. An empty page is followed
/// by the one before it, unless there is none, or the token no longer changes, or it is the
/// third.
pub proof fn lemma_after_page(
    pages: int,
    token: Option<Seq<char>>,
    messages: Vec<Option<String>>,
    backward_token: Option<String>,
    group: Seq<char>,
)
    requires
        0 <= pages < 3,
    ensures
        ({
            let r = after_page(pages, token, PageAnswer::Page { messages, backward_token }, group);
            &&& messages@.len() > 0 ==> (r matches StepView::Done(lines) && lines.len()
                == messages@.len() && forall|i: int|
                0 <= i < messages@.len() && messages@[i] is Some ==> #[trigger] lines[i]
                    == messages@[i]->0@)
            &&& r is Again <==> messages@.len() == 0 && pages < 2 && (
            backward_token matches Some(b) && token != Some(b@))
            &&& !(r is Again) && messages@.len() == 0 ==> (r matches StepView::Done(lines)
                && lines.len() == 0)
        }),
{
}

/// What comes of a stream that is followed is shown as it comes; only the first answer is
/// followed by a note, and only where there is nothing to show.
pub proof fn lemma_what_is_shown(
    started: bool,
    messages: Vec<Option<String>>,
    forward_token: Option<String>,
    e: Option<LogError>,
    group: Seq<char>,
    stream: Seq<char>,
)
    ensures
        shown(
            started,
            FollowAnswer::Page { messages, forward_token },
            group,
            stream,
        ) matches Ok((lines, note)) && lines.len() == messages@.len() && (note is Some <==> !started
            && messages@.len() == 0) && forall|i: int|
            0 <= i < messages@.len() && messages@[i] is Some ==> #[trigger] lines[i]
                == messages@[i]->0@,
        shown(started, FollowAnswer::Failed(e), group, stream) is Ok <==> missing(e) == Some(
            NotFound::Stream,
        ),
        missing(e) == Some(NotFound::Stream) ==> (shown(
            started,
            FollowAnswer::Failed(e),
            group,
            stream,
        ) matches Ok((lines, note)) && lines.len() == 0 && (note is Some <==> !started)),
{
}

/// Of two tasks the one that stopped later is looked at first, and where both stopped at the
/// same time the one that stands first. A task that did not say when it stopped counts by
/// when it started, and one that said neither comes last.
pub proof fn lemma_order_of_looking(list: Seq<StoppedTask>, a: int, b: int)
    requires
        0 <= a < list.len(),
        0 <= b < list.len(),
        a != b,
    ensures
        list[a].stopped_at matches Some(x) ==> (list[b].stopped_at matches Some(y) ==> (
        looked_at_first(list, a, b) <==> y.seconds() < x.seconds() || (y.seconds() == x.seconds()
            && (y.nanoseconds() < x.nanoseconds() || (y.nanoseconds() == x.nanoseconds() && a
            < b))))),
        list[a].stopped_at is None ==> (list[a].started_at matches Some(x) ==> (
        list[b].stopped_at matches Some(y) ==> (looked_at_first(list, a, b) <==> y.seconds()
            < x.seconds() || (y.seconds() == x.seconds() && (y.nanoseconds() < x.nanoseconds() || (
        y.nanoseconds() == x.nanoseconds() && a < b)))))),
        (list[a].stopped_at is Some || list[a].started_at is Some) && list[b].stopped_at is None
            && list[b].started_at is None ==> looked_at_first(list, a, b),
        list[a].stopped_at is None && list[a].started_at is None && list[b].stopped_at is None
            && list[b].started_at is None ==> (looked_at_first(list, a, b) <==> a < b),
{
}

/// The streams that are read in place of an empty one are those of the first tasks in their
/// order, each named after the prefix and the task, without the one that was read already.
pub proof fn lemma_streams_in_turn(
    list: Seq<StoppedTask>,
    places: Seq<usize>,
    prefix: Seq<char>,
    exclude: Seq<char>,
    n: int,
)
    requires
        0 <= n < places.len(),
        forall|i: int| 0 <= i < places.len() ==> #[trigger] places[i] < list.len(),
    ensures
        streams_upto(list, places, prefix, exclude, 0).len() == 0,
        !streams_upto(list, places, prefix, exclude, n + 1).contains(exclude),
        list[places[n] as int].task_arn matches Some(arn) ==> streams_upto(
            list,
            places,
            prefix,
            exclude,
            n + 1,
        ) == if prefix + text::after_last(arn@, '/') == exclude {
            streams_upto(list, places, prefix, exclude, n)
        } else {
            streams_upto(list, places, prefix, exclude, n).push(
                prefix + text::after_last(arn@, '/'),
            )
        },
    decreases n,
{
    if n > 0 {
        lemma_streams_in_turn(list, places, prefix, exclude, n - 1);
    }
    let before = streams_upto(list, places, prefix, exclude, n);
    let after = streams_upto(list, places, prefix, exclude, n + 1);
    assert(!before.contains(exclude));
    if after.contains(exclude) {
        let i = choose|i: int| 0 <= i < after.len() && after[i] == exclude;
        if i < before.len() {
            assert(before[i] == exclude);
        }
    }
}

/// The stream that is found is one of the list that has a name and an event, other than the
/// one that was read already; of several with the latest event it is the first.
pub proof fn lemma_best_is_first(list: Seq<LogStream>, exclude: Seq<char>, n: int) -> (p: int)
    requires
        0 <= n <= list.len(),
    ensures
        best_upto(None, list, exclude, n) is None ==> forall|i: int|
            0 <= i < n ==> (#[trigger] list[i]).name is None || list[i].last_event_timestamp is None
                || list[i].name->0@ == exclude,
        best_upto(None, list, exclude, n) matches Some((ts, name)) ==> 0 <= p < n && name != exclude
            && list[p].last_event_timestamp == Some(ts) && (list[p].name matches Some(s) && s@
            == name) && forall|i: int|
            0 <= i < p && (#[trigger] list[i]).name is Some && list[i].last_event_timestamp is Some
                && list[i].name->0@ != exclude ==> list[i].last_event_timestamp->0 < ts,
    decreases n,
{
    if n == 0 {
        0
    } else {
        let q = lemma_best_is_first(list, exclude, n - 1);
        lemma_best_is_latest(None, list, exclude, n - 1);
        if best_upto(None, list, exclude, n) == best_upto(None, list, exclude, n - 1) {
            q
        } else {
            assert forall|i: int|
                0 <= i < n - 1 && (#[trigger] list[i]).name is Some
                    && list[i].last_event_timestamp is Some && list[i].name->0@ != exclude implies
                list[i].last_event_timestamp->0 < list[n - 1].last_event_timestamp->0 by {
                assert(is_candidate(list[i], exclude));
            }
            n - 1
        }
    }
}

/// No more than five tasks are looked at, in whatever list: those that stand first in the
/// order in which tasks are looked at.
pub proof fn lemma_five_are_looked_at(
    list: Seq<StoppedTask>,
    places: Seq<usize>,
    prefix: Seq<char>,
    exclude: Seq<char>,
)
    requires
        is_probe_order(list, places),
    ensures
        probed_streams(list, prefix, exclude).len() <= 5,
        list.len() <= 5 ==> probed_streams(list, prefix, exclude) == streams_upto(
            list,
            places,
            prefix,
            exclude,
            list.len() as int,
        ),
        list.len() > 5 ==> probed_streams(list, prefix, exclude) == streams_upto(
            list,
            places,
            prefix,
            exclude,
            5,
        ),
{
    let chosen = choose|places: Seq<usize>| is_probe_order(list, places);
    lemma_one_probe_order(list, places, chosen);
    lemma_at_most(list, places, prefix, exclude, 5);
    lemma_at_most(list, places, prefix, exclude, list.len() as int);
}

proof fn lemma_at_most(
    list: Seq<StoppedTask>,
    places: Seq<usize>,
    prefix: Seq<char>,
    exclude: Seq<char>,
    n: int,
)
    requires
        0 <= n,
    ensures
        streams_upto(list, places, prefix, exclude, n).len() <= n,
    decreases n,
{
    if n > 0 {
        lemma_at_most(list, places, prefix, exclude, n - 1);
    }
}

/// The streams of a container without a name are named after the application.
pub proof fn lemma_output_without_name(cd: ContainerView, id: Seq<char>)
    requires
        cd.name is None,
    ensures
        cd.log_configuration matches Some(lc) ==> (lc.options matches Some(m) ==> (m.contains_key(
            "awslogs-group"@,
        ) && m.contains_key("awslogs-stream-prefix"@) ==> (log_result(cd, id) matches Ok(r) && r.1
            == m["awslogs-stream-prefix"@] + "/"@ + "app"@ + "/"@))),
{
}

} // verus!
