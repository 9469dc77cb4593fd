use ecsctl::alias::Task;
use ecsctl::ecs::{ContainerDefinition, LogConfiguration, TaskDefinition};
use ecsctl::instant::Instant;
use ecsctl::logs::{
    after_list, choose_task, classify_not_found, fallback_streams, find_log, no_tasks,
    read_failure, FollowAnswer, Follower, ListStep, LogError, LogProblem, LogStream, LogTarget,
    NotFound, PageAnswer, PageReader, PageStep, StoppedTask, StreamScan,
};
use ecsctl::logsearch::{Action, Answer, LogSearch, Step};
use ecsctl::strmap::StrMap;

fn task(arn: &str, started: i64, definition: Option<&str>) -> Task {
    Task {
        task_arn: Some(arn.to_string()),
        last_status: None,
        health_status: None,
        started_at: Instant::new(started, 0),
        cpu: None,
        memory: None,
        task_definition_arn: definition.map(|s| s.to_string()),
        capacity_provider_name: None,
        platform_version: None,
        availability_zone: None,
        connectivity: None,
        enable_execute_command: false,
        attachments: Vec::new(),
        containers: Vec::new(),
    }
}

#[test]
fn the_newest_task_is_chosen() {
    let list = vec![task("x/a", 5, Some("td1")), task("x/b", 9, Some("td2"))];
    assert_eq!(choose_task(&list).unwrap(), (1, "b".to_string(), "td2".to_string()));
    let e = choose_task(&vec![task("x/a", 5, None)]).unwrap_err();
    assert_eq!(e.kind, LogProblem::NoTaskDefinition);
    assert_eq!(e.to_string(), "no task def ARN");
    let e = choose_task(&Vec::new()).unwrap_err();
    assert_eq!(e.kind, LogProblem::NoNewestTask);
    assert_eq!(e.to_string(), "no tasks found");
    assert_eq!(
        no_tasks("web").to_string(),
        "no tasks found for 'web' (running or recently stopped)"
    );
}

fn definition(name: Option<&str>, lc: Option<LogConfiguration>) -> TaskDefinition {
    TaskDefinition {
        family: None,
        cpu: None,
        memory: None,
        network_mode: None,
        requires_compatibilities: Vec::new(),
        cpu_architecture: None,
        operating_system_family: None,
        container_definitions: vec![ContainerDefinition {
            name: name.map(|s| s.to_string()),
            image: None,
            essential: None,
            command: None,
            entry_point: None,
            user: None,
            readonly_root_filesystem: None,
            depends_on: Vec::new(),
            linux_parameters: None,
            mount_points: Vec::new(),
            port_mappings: Vec::new(),
            environment: Vec::new(),
            secrets: Vec::new(),
            log_configuration: lc,
        }],
        volumes: Vec::new(),
        execution_role_arn: None,
        task_role_arn: None,
    }
}

fn logging(options: &[(&str, &str)]) -> Option<LogConfiguration> {
    let mut m = StrMap::new();
    for (k, v) in options {
        m.insert(k.to_string(), v.to_string());
    }
    Some(LogConfiguration { log_driver: "awslogs".to_string(), options: Some(m) })
}

#[test]
fn the_log_of_a_task_is_found() {
    let lc = logging(&[("awslogs-group", "/g"), ("awslogs-stream-prefix", "p")]);
    let t = find_log(&definition(Some("web"), lc), "id").unwrap();
    assert_eq!(t.group, "/g");
    assert_eq!(t.stream, "p/web/id");
    assert_eq!(t.stream_prefix, "p/web/");
    let lc = logging(&[("awslogs-group", "/g"), ("awslogs-stream-prefix", "p")]);
    assert_eq!(find_log(&definition(None, lc), "id").unwrap().stream, "p/app/id");
}

#[test]
fn each_problem_with_a_log() {
    let message = |td: &TaskDefinition| find_log(td, "id").unwrap_err().to_string();
    assert_eq!(message(&definition(None, None)), "no log configuration");
    let bare = Some(LogConfiguration { log_driver: "awslogs".to_string(), options: None });
    assert_eq!(message(&definition(None, bare)), "no log options");
    assert_eq!(message(&definition(None, logging(&[]))), "no awslogs-group");
    assert_eq!(
        message(&definition(None, logging(&[("awslogs-group", "/g")]))),
        "no awslogs-stream-prefix"
    );
    let mut td = definition(None, None);
    td.container_definitions = Vec::new();
    assert_eq!(message(&td), "no app container found");
}

fn refused(not_found: bool, message: &str) -> Option<LogError> {
    Some(LogError { not_found, message: Some(message.to_string()) })
}

#[test]
fn a_missing_stream_is_no_missing_group() {
    assert_eq!(
        classify_not_found(&refused(true, "The specified LOG Group does not exist.")),
        Some(NotFound::Group)
    );
    assert_eq!(
        classify_not_found(&refused(true, "The specified log stream does not exist.")),
        Some(NotFound::Stream)
    );
    assert_eq!(
        classify_not_found(&Some(LogError { not_found: true, message: None })),
        Some(NotFound::Stream)
    );
    assert_eq!(classify_not_found(&refused(false, "log group")), None);
    assert_eq!(classify_not_found(&None), None);
    assert!(read_failure(&refused(true, "stream"), "g").is_none());
    assert_eq!(
        read_failure(&refused(true, "log group"), "g").unwrap().to_string(),
        "log group 'g' does not exist"
    );
    let e = read_failure(&None, "g").unwrap();
    assert_eq!(e.kind, LogProblem::ReadFailed);
    assert_eq!(e.to_string(), "GetLogEvents failed");
}

fn page(messages: &[Option<&str>], token: Option<&str>) -> PageAnswer {
    PageAnswer::Page {
        messages: messages.iter().map(|m| m.map(|s| s.to_string())).collect(),
        backward_token: token.map(|s| s.to_string()),
    }
}

fn done(s: PageStep) -> Vec<String> {
    match s {
        PageStep::Done(lines) => lines,
        other => panic!("{other:?}"),
    }
}

#[test]
fn an_empty_page_is_not_the_end() {
    let mut r = PageReader::new();
    assert!(matches!(r.step(page(&[], Some("t1")), "g"), PageStep::Again));
    assert_eq!(r.token.as_deref(), Some("t1"));
    assert_eq!(
        done(r.step(page(&[Some("a"), None], Some("t2")), "g")),
        vec!["a".to_string(), String::new()]
    );
    let mut r = PageReader::new();
    assert!(matches!(r.step(page(&[], Some("t1")), "g"), PageStep::Again));
    assert!(done(r.step(page(&[], Some("t1")), "g")).is_empty());
    let mut r = PageReader::new();
    assert!(done(r.step(page(&[], None), "g")).is_empty());
}

#[test]
fn three_empty_pages_are_the_end() {
    let mut r = PageReader::new();
    assert!(matches!(r.step(page(&[], Some("t1")), "g"), PageStep::Again));
    assert!(matches!(r.step(page(&[], Some("t2")), "g"), PageStep::Again));
    assert!(done(r.step(page(&[], Some("t3")), "g")).is_empty());
    let mut r = PageReader::new();
    assert!(done(r.step(PageAnswer::Failed(refused(true, "stream")), "g")).is_empty());
    assert!(matches!(r.step(PageAnswer::Failed(None), "g"), PageStep::Failed(_)));
}

fn news(messages: &[&str], token: Option<&str>) -> FollowAnswer {
    FollowAnswer::Page {
        messages: messages.iter().map(|m| Some(m.to_string())).collect(),
        forward_token: token.map(|s| s.to_string()),
    }
}

#[test]
fn a_stream_is_followed() {
    let mut f = Follower::new();
    let s = f.step(FollowAnswer::Failed(refused(true, "stream")), "g", "s").unwrap();
    assert_eq!(
        s.note.as_deref(),
        Some("ecsctl: log stream 's' does not exist yet — waiting for the task to start logging...")
    );
    let s = f.step(FollowAnswer::Failed(refused(true, "stream")), "g", "s").unwrap();
    assert!(s.note.is_none());
    let s = f.step(news(&["a"], Some("t")), "g", "s").unwrap();
    assert_eq!(s.lines, vec!["a".to_string()]);
    assert_eq!(f.token.as_deref(), Some("t"));
    f.step(FollowAnswer::Failed(refused(true, "stream")), "g", "s").unwrap();
    assert_eq!(f.token.as_deref(), Some("t"));
    assert!(f.step(FollowAnswer::Failed(refused(true, "log group")), "g", "s").is_err());

    let mut f = Follower::new();
    let s = f.step(news(&[], None), "g", "s").unwrap();
    assert_eq!(
        s.note.as_deref(),
        Some("ecsctl: no log events yet in stream 's' — waiting for new events...")
    );
    assert!(f.step(news(&[], None), "g", "s").unwrap().note.is_none());
}

fn stopped(id: &str, stopped: Option<i64>, started: Option<i64>) -> StoppedTask {
    StoppedTask {
        task_arn: Some(format!("arn/{id}")),
        stopped_at: stopped.and_then(|s| Instant::new(s, 0)),
        started_at: started.and_then(|s| Instant::new(s, 0)),
    }
}

#[test]
fn the_last_tasks_come_first() {
    let list = vec![
        stopped("a", None, None),
        stopped("b", Some(5), Some(1)),
        stopped("c", None, Some(9)),
        stopped("d", Some(5), Some(3)),
        stopped("e", Some(7), None),
        stopped("f", Some(6), None),
        stopped("g", Some(4), None),
    ];
    assert_eq!(
        fallback_streams(&list, "p/app/", "p/app/e"),
        ["p/app/c", "p/app/f", "p/app/b", "p/app/d"].map(|s| s.to_string()).to_vec()
    );
    assert!(fallback_streams(&Vec::new(), "p/", "x").is_empty());
}

fn stream(name: Option<&str>, ts: Option<i64>) -> LogStream {
    LogStream { name: name.map(|s| s.to_string()), last_event_timestamp: ts }
}

#[test]
fn the_stream_with_the_latest_event() {
    let mut scan = StreamScan::new();
    let first = vec![
        stream(Some("a"), Some(5)),
        stream(None, Some(99)),
        stream(Some("b"), None),
        stream(Some("c"), Some(5)),
        stream(Some("x"), Some(50)),
    ];
    assert!(scan.step(&first, Some("t".to_string()), "x"));
    assert_eq!(scan.found, Some((5, "a".to_string())));
    assert!(scan.step(&vec![stream(Some("d"), Some(8))], Some("t".to_string()), "x"));
    assert!(scan.step(&Vec::new(), Some("t".to_string()), "x"));
    assert!(!scan.step(&Vec::new(), Some("t".to_string()), "x"));
    assert_eq!(scan.found, Some((8, "d".to_string())));
    assert!(!StreamScan::new().step(&Vec::new(), None, "x"));
}

#[test]
fn stopped_tasks_where_none_runs() {
    let arns = vec!["a".to_string()];
    assert!(matches!(after_list(false, arns.clone(), "web"), ListStep::Describe(l) if l == arns));
    assert!(matches!(after_list(true, arns.clone(), "web"), ListStep::Describe(l) if l == arns));
    assert!(matches!(after_list(false, Vec::new(), "web"), ListStep::ListStopped));
    match after_list(true, Vec::new(), "web") {
        ListStep::Failed(e) => {
            assert_eq!(e.kind, LogProblem::NoTasks);
            assert_eq!(
                e.to_string(),
                "no tasks found for 'web' (running or recently stopped)"
            );
        }
        other => panic!("{other:?}"),
    }
}

fn search(status: Option<&str>) -> LogSearch {
    let target = LogTarget {
        group: "g".to_string(),
        stream_prefix: "p/app/".to_string(),
        stream: "p/app/new".to_string(),
    };
    let (search, step) = LogSearch::start(target, "new", status.map(|s| s.to_string()));
    assert!(step.note.is_none());
    assert!(matches!(step.action, Action::Read(s) if s == "p/app/new"));
    search
}

fn lines(list: &[&str]) -> Answer {
    Answer::Lines(list.iter().map(|s| s.to_string()).collect())
}

fn reads(s: Step) -> String {
    match s.action {
        Action::Read(stream) => stream,
        other => panic!("{other:?}"),
    }
}

fn finishes(s: Step) -> (Option<String>, Vec<String>) {
    match s.action {
        Action::Finish(lines) => (s.note, lines),
        other => panic!("{other:?}"),
    }
}

fn listed(s: Step) {
    assert_eq!(s.note.as_deref(), Some("ecsctl: no log events yet for task new (PENDING)"));
    assert!(matches!(s.action, Action::ListStopped));
}

#[test]
fn the_chosen_task_comes_first() {
    let mut m = search(None);
    assert_eq!(finishes(m.step(lines(&["a"]))), (None, vec!["a".to_string()]));
    let mut m = search(None);
    let s = m.step(lines(&[]));
    assert_eq!(s.note.as_deref(), Some("ecsctl: no log events yet for task new (UNKNOWN)"));
}

#[test]
fn stopped_tasks_come_next() {
    let mut m = search(Some("PENDING"));
    listed(m.step(lines(&[])));
    let s = m.step(Answer::Listed(vec!["arn/a".to_string(), "arn/b".to_string()]));
    assert!(matches!(s.action, Action::Describe(l) if l.len() == 2));
    let tasks = vec![stopped("a", Some(5), None), stopped("b", Some(7), None)];
    assert_eq!(reads(m.step(Answer::Described(tasks))), "p/app/b");
    assert_eq!(reads(m.step(lines(&[]))), "p/app/a");
    assert_eq!(
        finishes(m.step(lines(&["old"]))),
        (
            Some("ecsctl: showing logs from previous task a".to_string()),
            vec!["old".to_string()]
        )
    );
}

#[test]
fn the_latest_stream_comes_last() {
    let mut m = search(Some("PENDING"));
    listed(m.step(lines(&[])));
    m.step(Answer::Listed(vec!["arn/a".to_string()]));
    assert_eq!(reads(m.step(Answer::Described(vec![stopped("a", None, None)]))), "p/app/a");
    let s = m.step(lines(&[]));
    assert!(matches!(s.action, Action::ListStreams(None)));
    let page = vec![stream(Some("p/app/x"), Some(3)), stream(Some("p/app/new"), Some(9))];
    let s = m.step(Answer::Streams { list: page, token: Some("t".to_string()) });
    assert!(matches!(s.action, Action::ListStreams(Some(t)) if t == "t"));
    let page = vec![stream(Some("p/app/y"), Some(4))];
    assert_eq!(reads(m.step(Answer::Streams { list: page, token: None })), "p/app/y");
    assert_eq!(
        finishes(m.step(lines(&["older"]))),
        (
            Some("ecsctl: showing logs from previous task y".to_string()),
            vec!["older".to_string()]
        )
    );
}

#[test]
fn nothing_was_written() {
    let note = Some(
        "ecsctl: no log streams with events found in 'g' under prefix 'p/app/'".to_string(),
    );
    let mut m = search(Some("PENDING"));
    listed(m.step(lines(&[])));
    assert!(matches!(m.step(Answer::Listed(Vec::new())).action, Action::ListStreams(None)));
    for _ in 0..3 {
        let s = m.step(Answer::Streams { list: Vec::new(), token: Some("t".to_string()) });
        assert!(matches!(s.action, Action::ListStreams(Some(_))));
    }
    let s = m.step(Answer::Streams { list: Vec::new(), token: Some("t".to_string()) });
    assert_eq!(finishes(s), (note.clone(), Vec::new()));

    let mut m = search(Some("PENDING"));
    listed(m.step(lines(&[])));
    m.step(Answer::Listed(Vec::new()));
    let page = vec![stream(Some("p/app/y"), Some(4))];
    assert_eq!(reads(m.step(Answer::Streams { list: page, token: None })), "p/app/y");
    assert_eq!(finishes(m.step(lines(&[]))), (note, Vec::new()));
}
