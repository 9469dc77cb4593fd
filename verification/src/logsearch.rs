//! In which order streams are read until one shows what a service has written.

use crate::logs;
use crate::logs::{fallback_streams, LogStream, LogTarget, StoppedTask, StreamScan};
use crate::text;
use vstd::prelude::*;

verus! {

/// What a search is waiting for.
#[derive(Debug, Clone, Copy, PartialEq, Eq, Structural)]
pub enum Phase {
    /// The lines of the task that was chosen.
    Own,
    /// The list of stopped tasks.
    Listing,
    /// What those tasks are.
    Describing,
    /// The lines of a stopped task.
    Probing,
    /// A page of streams.
    Scanning,
    /// The lines of the stream with the latest event.
    Reading,
    Finished,
}

/// What was asked for.
#[derive(Debug)]
pub enum Answer {
    Lines(Vec<String>),
    Listed(Vec<String>),
    Described(Vec<StoppedTask>),
    Streams { list: Vec<LogStream>, token: Option<String> },
}

/// What an [`Answer`] says.
pub enum AnswerView {
    Lines(Seq<Seq<char>>),
    Listed(Seq<Seq<char>>),
    Described(Seq<StoppedTask>),
    Streams { list: Seq<LogStream>, token: Option<Seq<char>> },
}

impl View for Answer {
    type V = AnswerView;

    open spec fn view(&self) -> AnswerView {
        match self {
            Answer::Lines(lines) => AnswerView::Lines(text::texts(lines@)),
            Answer::Listed(arns) => AnswerView::Listed(text::texts(arns@)),
            Answer::Described(list) => AnswerView::Described(list@),
            Answer::Streams { list, token } => AnswerView::Streams {
                list: list@,
                token: text::opt_text(*token),
            },
        }
    }
}

/// What has to be done next.
#[derive(Debug)]
pub enum Action {
    /// Read the last lines of a stream.
    Read(String),
    /// List the tasks that have stopped.
    ListStopped,
    /// Look these tasks up.
    Describe(Vec<String>),
    /// List the streams of the container, from a token on.
    ListStreams(Option<String>),
    /// Show these lines; there is nothing more to do.
    Finish(Vec<String>),
}

/// What an [`Action`] says.
#[verifier::ext_equal]
pub enum ActionView {
    Read(Seq<char>),
    ListStopped,
    Describe(Seq<Seq<char>>),
    ListStreams(Option<Seq<char>>),
    Finish(Seq<Seq<char>>),
}

impl View for Action {
    type V = ActionView;

    open spec fn view(&self) -> ActionView {
        match self {
            Action::Read(stream) => ActionView::Read(stream@),
            Action::ListStopped => ActionView::ListStopped,
            Action::Describe(arns) => ActionView::Describe(text::texts(arns@)),
            Action::ListStreams(token) => ActionView::ListStreams(text::opt_text(*token)),
            Action::Finish(lines) => ActionView::Finish(text::texts(lines@)),
        }
    }
}

/// A step of a search.
#[derive(Debug)]
pub struct Step {
    /// What the reader is told before.
    pub note: Option<String>,
    pub action: Action,
}

/// What a [`Step`] says.
#[verifier::ext_equal]
pub struct StepView {
    pub note: Option<Seq<char>>,
    pub action: ActionView,
}

impl View for Step {
    type V = StepView;

    open spec fn view(&self) -> StepView {
        StepView { note: text::opt_text(self.note), action: self.action@ }
    }
}

/// A search for what a service has written. The stream of the chosen task comes
/// first; where it is empty, those of the tasks that stopped last; and then the
/// stream of the container with the latest event.
#[derive(Debug)]
pub struct LogSearch {
    target: LogTarget,
    task_id: String,
    status: Option<String>,
    phase: Phase,
    current: String,
    probes: Vec<String>,
    probed: usize,
    scan: StreamScan,
}

/// How far a [`LogSearch`] has come.
#[verifier::ext_equal]
pub struct SearchView {
    pub group: Seq<char>,
    pub prefix: Seq<char>,
    /// The stream of the chosen task, and that task.
    pub own: Seq<char>,
    pub task_id: Seq<char>,
    pub status: Seq<char>,
    pub phase: Phase,
    /// The stream that is being read.
    pub current: Seq<char>,
    /// The streams of stopped tasks that are read after it.
    pub waiting: Seq<Seq<char>>,
    /// How many pages of streams have been looked at.
    pub pages: int,
    /// The stream with the latest event so far.
    pub found: Option<(i64, Seq<char>)>,
}

impl View for LogSearch {
    type V = SearchView;

    closed spec fn view(&self) -> SearchView {
        SearchView {
            group: self.target.group@,
            prefix: self.target.stream_prefix@,
            own: self.target.stream@,
            task_id: self.task_id@,
            status: text::text_or(self.status, "UNKNOWN"@),
            phase: self.phase,
            current: self.current@,
            waiting: text::texts(self.probes@).skip(self.probed as int),
            pages: self.scan.pages as int,
            found: logs::found_view(self.scan.found),
        }
    }
}

impl LogSearch {
    /// Whether the parts of a search fit each other.
    pub closed spec fn sound(self) -> bool {
        &&& self.probed <= self.probes@.len()
        &&& in_bounds(self@)
    }
}

/// Whether a search keeps its limits: five stopped tasks, and four pages of
/// streams.
pub open spec fn in_bounds(m: SearchView) -> bool {
    &&& m.waiting.len() <= 5
    &&& 0 <= m.pages
    &&& m.phase == Phase::Probing ==> m.waiting.len() < 5
    &&& m.phase == Phase::Own || m.phase == Phase::Listing || m.phase == Phase::Describing
        || m.phase == Phase::Probing ==> m.pages == 0 && m.found is None
    &&& m.phase == Phase::Scanning ==> m.pages < 4
}

/// The end of a search, with what it shows.
pub open spec fn finish(
    m: SearchView,
    note: Option<Seq<char>>,
    lines: Seq<Seq<char>>,
) -> (SearchView, StepView) {
    (
        SearchView { phase: Phase::Finished, ..m },
        StepView { note, action: ActionView::Finish(lines) },
    )
}

/// The end of a search that has found the lines of another task.
pub open spec fn found_lines(m: SearchView, lines: Seq<Seq<char>>) -> (SearchView, StepView) {
    finish(
        m,
        Some("ecsctl: showing logs from previous task "@ + text::after_last(m.current, '/')),
        lines,
    )
}

/// The end of a search that has found nothing.
pub open spec fn found_nothing(m: SearchView) -> (SearchView, StepView) {
    finish(
        m,
        Some(
            "ecsctl: no log streams with events found in '"@ + m.group + "' under prefix '"@
                + m.prefix + "'"@,
        ),
        Seq::empty(),
    )
}

/// Goes on to the next stopped task, or to the list of streams after the last.
pub open spec fn probe(m: SearchView) -> (SearchView, StepView) {
    if m.waiting.len() > 0 {
        (
            SearchView {
                phase: Phase::Probing,
                current: m.waiting[0],
                waiting: m.waiting.skip(1),
                ..m
            },
            StepView { note: None, action: ActionView::Read(m.waiting[0]) },
        )
    } else {
        (
            SearchView { phase: Phase::Scanning, ..m },
            StepView { note: None, action: ActionView::ListStreams(None) },
        )
    }
}

/// Takes a page of streams. The stream with the latest event is read after the
/// last page.
pub open spec fn scan_page(m: SearchView, list: Seq<LogStream>, token: Option<Seq<char>>) -> (
    SearchView,
    StepView,
) {
    let found = logs::best_upto(m.found, list, m.own, list.len() as int);
    let after = SearchView { pages: m.pages + 1, found, ..m };
    if token is Some && m.pages < 3 {
        (after, StepView { note: None, action: ActionView::ListStreams(token) })
    } else {
        match found {
            Some((_, stream)) => (
                SearchView { phase: Phase::Reading, current: stream, ..after },
                StepView { note: None, action: ActionView::Read(stream) },
            ),
            None => found_nothing(after),
        }
    }
}

/// What an answer leads to. An answer to something else ends the search.
pub open spec fn next(m: SearchView, answer: AnswerView) -> (SearchView, StepView) {
    match (m.phase, answer) {
        (Phase::Own, AnswerView::Lines(lines)) => if lines.len() > 0 {
            finish(m, None, lines)
        } else {
            (
                SearchView { phase: Phase::Listing, ..m },
                StepView {
                    note: Some(
                        "ecsctl: no log events yet for task "@ + m.task_id + " ("@ + m.status
                            + ")"@,
                    ),
                    action: ActionView::ListStopped,
                },
            )
        },
        (Phase::Listing, AnswerView::Listed(arns)) => if arns.len() > 0 {
            (
                SearchView { phase: Phase::Describing, ..m },
                StepView { note: None, action: ActionView::Describe(arns) },
            )
        } else {
            probe(SearchView { waiting: Seq::empty(), ..m })
        },
        (Phase::Describing, AnswerView::Described(list)) => probe(
            SearchView { waiting: logs::probed_streams(list, m.prefix, m.own), ..m },
        ),
        (Phase::Probing, AnswerView::Lines(lines)) => if lines.len() > 0 {
            found_lines(m, lines)
        } else {
            probe(m)
        },
        (Phase::Scanning, AnswerView::Streams { list, token }) => scan_page(m, list, token),
        (Phase::Reading, AnswerView::Lines(lines)) => if lines.len() > 0 {
            found_lines(m, lines)
        } else {
            found_nothing(m)
        },
        _ => finish(m, None, Seq::empty()),
    }
}

proof fn lemma_few_probes(
    list: Seq<StoppedTask>,
    places: Seq<usize>,
    prefix: Seq<char>,
    exclude: Seq<char>,
    n: int,
)
    requires
        0 <= n,
    ensures
        logs::streams_upto(list, places, prefix, exclude, n).len() <= n,
    decreases n,
{
    if n > 0 {
        lemma_few_probes(list, places, prefix, exclude, n - 1);
    }
}

proof fn lemma_stays_in_bounds(m: SearchView, answer: AnswerView)
    requires
        in_bounds(m),
    ensures
        in_bounds(next(m, answer).0),
{
    match (m.phase, answer) {
        (Phase::Describing, AnswerView::Described(list)) => {
            let places = choose|places: Seq<usize>| logs::is_probe_order(list, places);
            lemma_few_probes(
                list,
                places,
                m.prefix,
                m.own,
                if list.len() < 5 {
                    list.len() as int
                } else {
                    5
                },
            );
        },
        _ => {},
    }
}

impl LogSearch {
    /// Begins a search with the stream of the chosen task.
    pub fn start(target: LogTarget, task_id: &str, status: Option<String>) -> (r: (LogSearch, Step))
        ensures
            r.0.sound(),
            r.0@ == (SearchView {
                group: target.group@,
                prefix: target.stream_prefix@,
                own: target.stream@,
                task_id: task_id@,
                status: text::text_or(status, "UNKNOWN"@),
                phase: Phase::Own,
                current: target.stream@,
                waiting: Seq::empty(),
                pages: 0,
                found: None,
            }),
            r.1@ == (StepView { note: None, action: ActionView::Read(target.stream@) }),
    {
        let stream = target.stream.clone();
        let current = target.stream.clone();
        let m = LogSearch {
            target,
            task_id: String::from_str(task_id),
            status,
            phase: Phase::Own,
            current,
            probes: Vec::new(),
            probed: 0,
            scan: StreamScan::new(),
        };
        assert(m@.waiting =~= Seq::empty());
        (m, Step { note: None, action: Action::Read(stream) })
    }

    fn finish(&mut self, note: Option<String>, lines: Vec<String>) -> (r: Step)
        requires
            old(self).sound(),
        ensures
            final(self).sound(),
            (final(self)@, r@) == finish(old(self)@, text::opt_text(note), text::texts(lines@)),
    {
        self.phase = Phase::Finished;
        Step { note, action: Action::Finish(lines) }
    }

    fn found_lines(&mut self, lines: Vec<String>) -> (r: Step)
        requires
            old(self).sound(),
        ensures
            final(self).sound(),
            (final(self)@, r@) == found_lines(old(self)@, text::texts(lines@)),
    {
        let mut m = String::from_str("ecsctl: showing logs from previous task ");
        m.append(text::last_piece(self.current.as_str(), '/'));
        self.finish(Some(m), lines)
    }

    fn found_nothing(&mut self) -> (r: Step)
        requires
            old(self).sound(),
        ensures
            final(self).sound(),
            (final(self)@, r@) == found_nothing(old(self)@),
    {
        let mut m = String::from_str("ecsctl: no log streams with events found in '");
        m.append(self.target.group.as_str());
        m.append("' under prefix '");
        m.append(self.target.stream_prefix.as_str());
        m.append("'");
        let lines: Vec<String> = Vec::new();
        assert(text::texts(lines@) =~= Seq::empty());
        self.finish(Some(m), lines)
    }

    fn probe(&mut self) -> (r: Step)
        requires
            old(self).probed <= old(self).probes@.len(),
            old(self)@.waiting.len() <= 5,
            old(self)@.pages == 0,
            old(self)@.found is None,
        ensures
            final(self).sound(),
            (final(self)@, r@) == probe(old(self)@),
    {
        let ghost all = text::texts(self.probes@);
        if self.probed < self.probes.len() {
            let stream = self.probes[self.probed].clone();
            self.current = stream.clone();
            assert(all.skip(self.probed as int)[0] == stream@);
            assert(all.skip(self.probed as int).skip(1) =~= all.skip(self.probed + 1));
            self.probed = self.probed + 1;
            self.phase = Phase::Probing;
            Step { note: None, action: Action::Read(stream) }
        } else {
            self.phase = Phase::Scanning;
            Step { note: None, action: Action::ListStreams(None) }
        }
    }

    fn scan_page(&mut self, list: Vec<LogStream>, token: Option<String>) -> (r: Step)
        requires
            old(self).sound(),
            old(self).phase == Phase::Scanning,
        ensures
            final(self).sound(),
            (final(self)@, r@) == scan_page(old(self)@, list@, text::opt_text(token)),
    {
        let next_token = text::copy_opt(&token);
        let again = self.scan.step(&list, token, self.target.stream.as_str());
        if again {
            return Step { note: None, action: Action::ListStreams(next_token) };
        }
        self.phase = Phase::Reading;
        let stream = match &self.scan.found {
            Some((_, stream)) => Some(stream.clone()),
            None => None,
        };
        match stream {
            Some(stream) => {
                self.current = stream.clone();
                Step { note: None, action: Action::Read(stream) }
            },
            None => self.found_nothing(),
        }
    }

    /// Takes an answer, and says what has to be done next.
    pub fn step(&mut self, answer: Answer) -> (r: Step)
        requires
            old(self).sound(),
        ensures
            final(self).sound(),
            (final(self)@, r@) == next(old(self)@, answer@),
    {
        proof {
            lemma_stays_in_bounds(self@, answer@);
        }
        match (self.phase, answer) {
            (Phase::Own, Answer::Lines(lines)) => {
                if lines.len() > 0 {
                    return self.finish(None, lines);
                }
                let mut m = String::from_str("ecsctl: no log events yet for task ");
                m.append(self.task_id.as_str());
                m.append(" (");
                m.append(text::str_or(&self.status, "UNKNOWN"));
                m.append(")");
                self.phase = Phase::Listing;
                Step { note: Some(m), action: Action::ListStopped }
            },
            (Phase::Listing, Answer::Listed(arns)) => {
                if arns.len() > 0 {
                    self.phase = Phase::Describing;
                    return Step { note: None, action: Action::Describe(arns) };
                }
                self.probed = self.probes.len();
                assert(self@.waiting =~= Seq::empty());
                self.probe()
            },
            (Phase::Describing, Answer::Described(list)) => {
                self.probes = fallback_streams(
                    &list,
                    self.target.stream_prefix.as_str(),
                    self.target.stream.as_str(),
                );
                self.probed = 0;
                assert(self@.waiting =~= text::texts(self.probes@));
                self.probe()
            },
            (Phase::Probing, Answer::Lines(lines)) => {
                if lines.len() > 0 {
                    return self.found_lines(lines);
                }
                self.probe()
            },
            (Phase::Scanning, Answer::Streams { list, token }) => self.scan_page(list, token),
            (Phase::Reading, Answer::Lines(lines)) => {
                if lines.len() > 0 {
                    return self.found_lines(lines);
                }
                self.found_nothing()
            },
            _ => {
                let lines: Vec<String> = Vec::new();
                assert(text::texts(lines@) =~= Seq::empty());
                self.finish(None, lines)
            },
        }
    }
}

/// How many more answers a search can take at most.
pub open spec fn steps_left(m: SearchView) -> int {
    match m.phase {
        Phase::Own => 13,
        Phase::Listing => 12,
        Phase::Describing => 11,
        Phase::Probing => m.waiting.len() as int + 6,
        Phase::Scanning => 5 - m.pages,
        Phase::Reading => 1,
        Phase::Finished => 0,
    }
}

/// A search comes to an end: every answer leaves fewer to be taken, and the last
/// one is taken exactly when the end is reported.
pub proof fn lemma_search_ends(m: SearchView, answer: AnswerView)
    requires
        in_bounds(m),
        m.phase != Phase::Finished,
    ensures
        in_bounds(next(m, answer).0),
        0 <= steps_left(next(m, answer).0) < steps_left(m) <= 13,
        next(m, answer).0.phase == Phase::Finished <==> next(m, answer).1.action is Finish,
{
    lemma_stays_in_bounds(m, answer);
}

/// Everything that a search can ask for.
pub struct World {
    /// The last lines of each stream.
    pub lines: spec_fn(Seq<char>) -> Seq<Seq<char>>,
    /// The tasks that have stopped, and what they are.
    pub stopped: Seq<Seq<char>>,
    pub tasks: Seq<StoppedTask>,
    /// The streams of the container from a token on, and the token of the rest.
    pub pages: spec_fn(Option<Seq<char>>) -> (Seq<LogStream>, Option<Seq<char>>),
}

/// The answer to what a search asks for.
pub open spec fn reply(w: World, action: ActionView) -> AnswerView {
    match action {
        ActionView::Read(stream) => AnswerView::Lines((w.lines)(stream)),
        ActionView::ListStopped => AnswerView::Listed(w.stopped),
        ActionView::Describe(_) => AnswerView::Described(w.tasks),
        ActionView::ListStreams(token) => AnswerView::Streams {
            list: (w.pages)(token).0,
            token: (w.pages)(token).1,
        },
        ActionView::Finish(lines) => AnswerView::Lines(lines),
    }
}

/// What a search shows in the end.
pub open spec fn outcome(w: World, m: SearchView, action: ActionView) -> Seq<Seq<char>>
    decreases steps_left(m),
    when in_bounds(m) && m.phase != Phase::Finished
{
    proof {
        lemma_search_ends(m, reply(w, action));
    }
    let (after, step) = next(m, reply(w, action));
    match step.action {
        ActionView::Finish(lines) => lines,
        _ => outcome(w, after, step.action),
    }
}

/// The first stream of a list that is not empty.
pub open spec fn first_written(w: World, streams: Seq<Seq<char>>) -> Option<Seq<char>>
    decreases streams.len(),
{
    if streams.len() == 0 {
        None
    } else if (w.lines)(streams[0]).len() > 0 {
        Some(streams[0])
    } else {
        first_written(w, streams.skip(1))
    }
}

/// The stream with the latest event on the first four pages, of a stream that was
/// found before and the pages from `token` on.
pub open spec fn latest_stream(
    w: World,
    own: Seq<char>,
    found: Option<(i64, Seq<char>)>,
    token: Option<Seq<char>>,
    pages: int,
) -> Option<(i64, Seq<char>)>
    decreases 4 - pages,
{
    let (list, rest) = (w.pages)(token);
    let best = logs::best_upto(found, list, own, list.len() as int);
    if rest is Some && pages < 3 {
        latest_stream(w, own, best, rest, pages + 1)
    } else {
        best
    }
}

/// What the stream with the latest event shows.
pub open spec fn latest_lines(w: World, latest: Option<(i64, Seq<char>)>) -> Seq<Seq<char>> {
    match latest {
        Some((_, stream)) => (w.lines)(stream),
        None => Seq::empty(),
    }
}

/// The streams of the tasks that stopped last.
pub open spec fn stopped_streams(w: World, m: SearchView) -> Seq<Seq<char>> {
    if w.stopped.len() > 0 {
        logs::probed_streams(w.tasks, m.prefix, m.own)
    } else {
        Seq::empty()
    }
}

proof fn lemma_scanned(w: World, m: SearchView, token: Option<Seq<char>>)
    requires
        in_bounds(m),
        m.phase == Phase::Scanning,
    ensures
        outcome(w, m, ActionView::ListStreams(token)) == latest_lines(
            w,
            latest_stream(w, m.own, m.found, token, m.pages),
        ),
    decreases 4 - m.pages,
{
    let action = ActionView::ListStreams(token);
    let (list, rest) = (w.pages)(token);
    let (after, step) = next(m, reply(w, action));
    lemma_search_ends(m, reply(w, action));
    if rest is Some && m.pages < 3 {
        lemma_scanned(w, after, rest);
    } else if after.phase == Phase::Reading {
        let lines = (w.lines)(after.current);
        assert(lines.len() == 0 ==> lines =~= Seq::empty());
        assert(outcome(w, after, step.action) == lines);
    }
}

proof fn lemma_probed(w: World, m: SearchView)
    requires
        in_bounds(m),
        m.pages == 0,
        m.found is None,
        m.phase != Phase::Finished,
    ensures
        outcome(w, probe(m).0, probe(m).1.action) == (match first_written(w, m.waiting) {
            Some(stream) => (w.lines)(stream),
            None => latest_lines(w, latest_stream(w, m.own, None, None, 0)),
        }),
    decreases m.waiting.len(),
{
    let (after, step) = probe(m);
    if m.waiting.len() > 0 {
        assert(in_bounds(after));
        let lines = (w.lines)(after.current);
        lemma_search_ends(after, AnswerView::Lines(lines));
        if lines.len() == 0 {
            lemma_probed(w, after);
        }
    } else {
        lemma_scanned(w, after, None);
    }
}

proof fn lemma_few_stopped(w: World, m: SearchView)
    ensures
        stopped_streams(w, m).len() <= 5,
{
    let list = w.tasks;
    let places = choose|places: Seq<usize>| logs::is_probe_order(list, places);
    lemma_few_probes(
        list,
        places,
        m.prefix,
        m.own,
        if list.len() < 5 {
            list.len() as int
        } else {
            5
        },
    );
}

/// What a search shows: the lines of the chosen task where there are any; otherwise,
/// of the five tasks that stopped last, those of the last one that wrote anything;
/// otherwise those of the stream of the container with the latest event, as far as
/// four pages show it; and otherwise nothing.
pub proof fn lemma_search_order(w: World, m: SearchView)
    requires
        m.phase == Phase::Own,
        m.waiting.len() == 0,
        m.pages == 0,
        m.found is None,
    ensures
        outcome(w, m, ActionView::Read(m.own)) == if (w.lines)(m.own).len() > 0 {
            (w.lines)(m.own)
        } else {
            match first_written(w, stopped_streams(w, m)) {
                Some(stream) => (w.lines)(stream),
                None => latest_lines(w, latest_stream(w, m.own, None, None, 0)),
            }
        },
{
    let own = AnswerView::Lines((w.lines)(m.own));
    lemma_search_ends(m, own);
    if (w.lines)(m.own).len() == 0 {
        let listing = next(m, own).0;
        let listed = AnswerView::Listed(w.stopped);
        lemma_search_ends(listing, listed);
        assert(outcome(w, m, ActionView::Read(m.own)) == outcome(
            w,
            listing,
            ActionView::ListStopped,
        ));
        if w.stopped.len() > 0 {
            let describing = next(listing, listed).0;
            let described = AnswerView::Described(w.tasks);
            lemma_search_ends(describing, described);
            let probing = SearchView { waiting: stopped_streams(w, m), ..describing };
            assert(next(describing, described) == probe(probing));
            lemma_few_stopped(w, m);
            lemma_probed(w, probing);
            let describe = ActionView::Describe(w.stopped);
            assert(outcome(w, listing, ActionView::ListStopped) == outcome(w, describing, describe));
            assert(outcome(w, describing, describe) == outcome(
                w,
                probe(probing).0,
                probe(probing).1.action,
            ));
        } else {
            let probing = SearchView { waiting: Seq::empty(), ..listing };
            assert(next(listing, listed) == probe(probing));
            lemma_probed(w, probing);
            assert(outcome(w, listing, ActionView::ListStopped) == outcome(
                w,
                probe(probing).0,
                probe(probing).1.action,
            ));
        }
    }
}

/// What the reader is told on the way: that the chosen task has not written anything yet,
/// from which other task lines are shown, and that none wrote anything.
pub proof fn lemma_notes(m: SearchView, lines: Seq<Seq<char>>)
    ensures
        m.phase == Phase::Own && lines.len() > 0 ==> next(m, AnswerView::Lines(lines)).1
            == (StepView { note: None, action: ActionView::Finish(lines) }),
        m.phase == Phase::Own && lines.len() == 0 ==> next(m, AnswerView::Lines(lines)).1.note
            == Some("ecsctl: no log events yet for task "@ + m.task_id + " ("@ + m.status + ")"@),
        (m.phase == Phase::Probing || m.phase == Phase::Reading) && lines.len() > 0 ==> next(
            m,
            AnswerView::Lines(lines),
        ).1 == (StepView {
            note: Some(
                "ecsctl: showing logs from previous task "@ + text::after_last(m.current, '/'),
            ),
            action: ActionView::Finish(lines),
        }),
        m.phase == Phase::Reading && lines.len() == 0 ==> next(m, AnswerView::Lines(lines)).1.note
            == Some(
            "ecsctl: no log streams with events found in '"@ + m.group + "' under prefix '"@
                + m.prefix + "'"@,
        ),
{
}

/// The streams that wait are read in their order, each once, and the streams of the
/// container are listed after the last.
pub proof fn lemma_streams_are_read_in_turn(m: SearchView)
    requires
        m.phase == Phase::Probing,
    ensures
        m.waiting.len() > 0 ==> next(m, AnswerView::Lines(Seq::empty())).1.action
            == ActionView::Read(m.waiting[0]) && next(
            m,
            AnswerView::Lines(Seq::empty()),
        ).0.waiting == m.waiting.drop_first(),
        m.waiting.len() == 0 ==> next(m, AnswerView::Lines(Seq::empty())).1.action
            == ActionView::ListStreams(None),
{
    if m.waiting.len() > 0 {
        assert(m.waiting.skip(1) =~= m.waiting.drop_first());
    }
}

} // verus!
