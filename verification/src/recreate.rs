//! The course of a restart that stops the old task first.
//!
//! A [`Recreate`] says what to do next; whoever runs it does so and reports back
//! what came of it.

use crate::deployment;
use crate::deployment::{Deployment, DeploymentView};
use crate::error::Error;
use crate::number;
use crate::restart;
use crate::restart::{
    check_deployment, check_restored, decide_restore, preflight, primary_deployment_id,
    recreate_deployment_configuration, temp_policy_may_be_live, ConfigurationView,
    DeploymentConfiguration, RestartProblem, RestoreDecision, RestoreView, ServiceState, StateView,
};
use crate::text;
use vstd::prelude::*;

verus! {

/// How often giving the old policy back is tried.
pub const RESTORE_ATTEMPTS: u32 = 3;

/// What a restart is waiting for.
#[derive(Debug, Clone, Copy, PartialEq, Eq, Structural)]
pub enum Phase {
    /// The service is being given the temporary policy.
    Updating,
    /// Giving it failed, and it is being looked up whether it is live.
    Reconciling,
    /// The deployment is coming to rest.
    Waiting,
    /// It is being looked up which deployment came to rest.
    Verifying,
    /// It is being looked up whether the policy can be taken back.
    Reading,
    /// The policy is being taken back.
    Writing,
    /// It is being looked up whether the policy was taken back.
    Checking,
    /// Some time passes before the next attempt.
    Pausing,
    /// The restart is over.
    Finished,
}

/// What came of the last action.
#[derive(Debug)]
pub enum Event<R> {
    /// The policy was given; these are the deployments now.
    Updated(Vec<Deployment>),
    UpdateFailed(String),
    /// The service that was asked for, where there is one.
    Described(Option<ServiceState<R>>),
    DescribeFailed(String),
    Stable,
    WaitFailed(Vec<String>),
    TimedOut,
    Cancelled,
    Written,
    WriteFailed(String),
    Paused,
}

/// What an [`Event`] says.
pub enum EventView<R> {
    Updated(Seq<DeploymentView>),
    UpdateFailed(Seq<char>),
    Described(Option<StateView<R>>),
    DescribeFailed(Seq<char>),
    Stable,
    WaitFailed(Seq<Seq<char>>),
    TimedOut,
    Cancelled,
    Written,
    WriteFailed(Seq<char>),
    Paused,
}

impl<R> View for Event<R> {
    type V = EventView<R>;

    open spec fn view(&self) -> EventView<R> {
        match self {
            Event::Updated(list) => EventView::Updated(deployment::deployment_views(list@)),
            Event::UpdateFailed(e) => EventView::UpdateFailed(e@),
            Event::Described(svc) => EventView::Described(restart::state_view(*svc)),
            Event::DescribeFailed(e) => EventView::DescribeFailed(e@),
            Event::Stable => EventView::Stable,
            Event::WaitFailed(e) => EventView::WaitFailed(text::texts(e@)),
            Event::TimedOut => EventView::TimedOut,
            Event::Cancelled => EventView::Cancelled,
            Event::Written => EventView::Written,
            Event::WriteFailed(e) => EventView::WriteFailed(e@),
            Event::Paused => EventView::Paused,
        }
    }
}

/// What is to be done next. An error is a list of messages, each one explained
/// by the next.
#[derive(Debug)]
pub enum Action<R> {
    /// Give the service this policy in a new deployment, and turn rebalancing
    /// off if it is on.
    Update { configuration: DeploymentConfiguration<R>, disable_rebalancing: bool },
    /// Look the service up.
    Describe,
    /// Wait for the deployment to come to rest, for a limited time.
    Wait,
    /// Give the service this policy, and turn rebalancing on if it was on.
    Write { configuration: DeploymentConfiguration<R>, enable_rebalancing: bool },
    /// Let five seconds pass.
    Pause,
    Finish(Result<(), Vec<String>>),
}

/// What an [`Action`] says.
#[verifier::ext_equal]
pub enum ActionView<R> {
    Update { configuration: ConfigurationView<R>, disable_rebalancing: bool },
    Describe,
    Wait,
    Write { configuration: ConfigurationView<R>, enable_rebalancing: bool },
    Pause,
    Finish(Result<(), Seq<Seq<char>>>),
}

impl<R> View for Action<R> {
    type V = ActionView<R>;

    open spec fn view(&self) -> ActionView<R> {
        match self {
            Action::Update { configuration, disable_rebalancing } => ActionView::Update {
                configuration: configuration@,
                disable_rebalancing: *disable_rebalancing,
            },
            Action::Describe => ActionView::Describe,
            Action::Wait => ActionView::Wait,
            Action::Write { configuration, enable_rebalancing } => ActionView::Write {
                configuration: configuration@,
                enable_rebalancing: *enable_rebalancing,
            },
            Action::Pause => ActionView::Pause,
            Action::Finish(Ok(())) => ActionView::Finish(Ok(())),
            Action::Finish(Err(e)) => ActionView::Finish(Err(text::texts(e@))),
        }
    }
}

/// What is to be said, and then done.
#[derive(Debug)]
pub struct Step<R> {
    pub lines: Vec<String>,
    pub action: Action<R>,
}

/// What a [`Step`] says.
#[verifier::ext_equal]
pub struct StepView<R> {
    pub lines: Seq<Seq<char>>,
    pub action: ActionView<R>,
}

impl<R> View for Step<R> {
    type V = StepView<R>;

    open spec fn view(&self) -> StepView<R> {
        StepView { lines: text::texts(self.lines@), action: self.action@ }
    }
}

/// A restart that stops the old task first.
#[derive(Debug)]
pub struct Recreate<R> {
    alias: String,
    saved: DeploymentConfiguration<R>,
    az_enabled: bool,
    phase: Phase,
    expected: Option<String>,
    attempts: u32,
    update_error: Option<String>,
    wait_error: Option<Vec<String>>,
}

/// How far a [`Recreate`] has come.
#[verifier::ext_equal]
pub struct RecreateView<R> {
    pub alias: Seq<char>,
    /// The policy that the service had.
    pub saved: ConfigurationView<R>,
    /// Whether its tasks were rebalanced.
    pub az_enabled: bool,
    pub phase: Phase,
    /// The deployment that is expected to come to rest.
    pub expected: Option<Seq<char>>,
    /// How often giving the policy back has been tried.
    pub attempts: int,
    /// Why the temporary policy could not be given.
    pub update_error: Option<Seq<char>>,
    /// Why the deployment did not come to rest as expected.
    pub wait_error: Option<Seq<Seq<char>>>,
}

impl<R> View for Recreate<R> {
    type V = RecreateView<R>;

    closed spec fn view(&self) -> RecreateView<R> {
        RecreateView {
            alias: self.alias@,
            saved: self.saved@,
            az_enabled: self.az_enabled,
            phase: self.phase,
            expected: text::opt_text(self.expected),
            attempts: self.attempts as int,
            update_error: text::opt_text(self.update_error),
            wait_error: crate::ecs::opt_texts(self.wait_error),
        }
    }
}

/// Whether an event can follow the action of a phase.
pub open spec fn fits<R>(phase: Phase, event: EventView<R>) -> bool {
    match phase {
        Phase::Updating => event is Updated || event is UpdateFailed,
        Phase::Reconciling | Phase::Verifying | Phase::Reading | Phase::Checking => event
            is Described || event is DescribeFailed,
        Phase::Waiting => event is Stable || event is WaitFailed || event is TimedOut || event
            is Cancelled,
        Phase::Writing => event is Written || event is WriteFailed,
        Phase::Pausing => event is Paused,
        Phase::Finished => false,
    }
}

/// Whether a restart is in a state that it can be in.
pub open spec fn sound<R>(m: RecreateView<R>) -> bool {
    &&& 0 <= m.attempts <= 3
    &&& m.phase == Phase::Updating || m.phase == Phase::Reconciling || m.phase == Phase::Waiting
        || m.phase == Phase::Verifying ==> m.attempts == 0
    &&& m.phase == Phase::Reading || m.phase == Phase::Writing || m.phase == Phase::Checking
        ==> m.attempts >= 1
    &&& m.phase == Phase::Pausing ==> 1 <= m.attempts < 3
    &&& m.phase == Phase::Reconciling ==> m.update_error is Some
    &&& m.phase == Phase::Updating || m.phase == Phase::Waiting || m.phase == Phase::Verifying
        ==> m.update_error is None && m.wait_error is None
    &&& m.phase == Phase::Verifying ==> m.expected is Some
}

/// A look at the service, with something said before it.
pub open spec fn look<R>(m: RecreateView<R>, phase: Phase, lines: Seq<Seq<char>>) -> (
    RecreateView<R>,
    StepView<R>,
) {
    (RecreateView { phase, ..m }, StepView { lines, action: ActionView::Describe })
}

/// The start of the next attempt to give the policy back.
pub open spec fn attempt<R>(m: RecreateView<R>, lines: Seq<Seq<char>>) -> (
    RecreateView<R>,
    StepView<R>,
) {
    look(RecreateView { attempts: m.attempts + 1, ..m }, Phase::Reading, lines)
}

/// The end of a restart.
pub open spec fn finish<R>(
    m: RecreateView<R>,
    lines: Seq<Seq<char>>,
    result: Result<(), Seq<Seq<char>>>,
) -> (RecreateView<R>, StepView<R>) {
    (
        RecreateView { phase: Phase::Finished, ..m },
        StepView { lines, action: ActionView::Finish(result) },
    )
}

/// The error of a restart whose temporary policy could not be given.
pub open spec fn update_failure<R>(m: RecreateView<R>) -> Seq<Seq<char>> {
    seq!["UpdateService failed for "@ + m.alias, m.update_error->0]
}

/// What is said of the attempt to give the policy back.
pub open spec fn restore_line<R>(
    m: RecreateView<R>,
    restored: Result<(), Seq<Seq<char>>>,
) -> Seq<char> {
    match restored {
        Ok(()) => "✓ Restored previous deployment configuration for "@ + m.alias,
        Err(e) => if m.update_error is Some {
            "❌ "@ + m.alias + ": restoration after ambiguous write also failed ("@ + e[0]
                + ") — restore manually using the recovery snapshot above"@
        } else {
            "❌ "@ + m.alias + ": failed to restore deployment configuration ("@ + e[0]
                + ") — the service is left with min=0/max=100 (future deploys stop-first); restore manually with `aws ecs update-service` using the recovery snapshot above"@
        },
    }
}

/// What a restart comes to: a deployment that did not come to rest as expected
/// weighs more than a policy that could not be given back.
pub open spec fn result_of<R>(m: RecreateView<R>, restored: Result<(), Seq<Seq<char>>>) -> Result<
    (),
    Seq<Seq<char>>,
> {
    if m.update_error is Some {
        Err(update_failure(m))
    } else {
        match (m.wait_error, restored) {
            (None, Ok(())) => Ok(()),
            (Some(we), Ok(())) => Err(
                seq![
                    m.alias
                        + ": recreate deployment did not stabilize (original deployment configuration was restored)"@,
                ] + we,
            ),
            (None, Err(re)) => Err(
                seq![
                    m.alias
                        + ": recreate deployment succeeded but restoring the deployment configuration failed"@,
                ] + re,
            ),
            (Some(we), Err(_)) => Err(
                seq![
                    m.alias
                        + ": recreate deployment did not stabilize AND the deployment configuration could not be restored"@,
                ] + we,
            ),
        }
    }
}

/// The end of a restart after giving the policy back was tried.
pub open spec fn conclude<R>(m: RecreateView<R>, restored: Result<(), Seq<Seq<char>>>) -> (
    RecreateView<R>,
    StepView<R>,
) {
    finish(m, seq![restore_line(m, restored)], result_of(m, restored))
}

/// What follows a failed attempt to give the policy back: another one, unless
/// the policy is somebody else's by now or the attempts are used up.
pub open spec fn after_failure<R>(m: RecreateView<R>, e: Seq<Seq<char>>) -> (
    RecreateView<R>,
    StepView<R>,
) {
    if text::occurs(e[0], "ownership lost"@) {
        conclude(m, Err(e))
    } else if m.attempts < 3 {
        (
            RecreateView { phase: Phase::Pausing, ..m },
            StepView {
                lines: seq![
                    "⚠️  restore attempt "@ + number::decimal_int(m.attempts)
                        + "/3 failed, retrying: "@ + e[0],
                ],
                action: ActionView::Pause,
            },
        )
    } else {
        conclude(m, Err(seq!["all 3 restore attempts failed: "@ + e[0]]))
    }
}

/// What follows a wait that did not end as expected.
pub open spec fn after_wait_failure<R>(m: RecreateView<R>, e: Seq<Seq<char>>) -> (
    RecreateView<R>,
    StepView<R>,
) {
    attempt(RecreateView { wait_error: Some(e), ..m }, Seq::empty())
}

/// The course of a restart: what follows an event.
pub open spec fn next<R>(m: RecreateView<R>, event: EventView<R>) -> (
    RecreateView<R>,
    StepView<R>,
) {
    match (m.phase, event) {
        (Phase::Updating, EventView::Updated(list)) => (
            RecreateView {
                phase: Phase::Waiting,
                expected: restart::primary_id(list),
                ..m
            },
            StepView {
                lines: seq![
                    "⏳ Waiting for deployment to stabilize (old task stops before new one starts)..."@,
                ],
                action: ActionView::Wait,
            },
        ),
        (Phase::Updating, EventView::UpdateFailed(e)) => look(
            RecreateView { update_error: Some(e), ..m },
            Phase::Reconciling,
            seq![
                "⚠️  "@ + m.alias
                    + ": UpdateService failed; reconciling whether the temporary policy was applied..."@,
            ],
        ),
        (Phase::Reconciling, EventView::Described(svc)) => if svc matches Some(svc)
            && restart::policy_may_be_live(svc, m.az_enabled) {
            attempt(
                m,
                seq![
                    "⚠️  "@ + m.alias
                        + ": temporary policy is live despite the error — restoring..."@,
                ],
            )
        } else {
            finish(m, Seq::empty(), Err(update_failure(m)))
        },
        (Phase::Reconciling, EventView::DescribeFailed(e)) => finish(
            m,
            seq![
                "❌ "@ + m.alias + ": could not reconcile ambiguous write ("@ + e
                    + ") — verify the service manually against the recovery snapshot above"@,
            ],
            Err(update_failure(m)),
        ),
        (Phase::Waiting, EventView::Cancelled) => after_wait_failure(
            m,
            seq!["cancelled while waiting for the recreate deployment"@],
        ),
        (Phase::Waiting, EventView::TimedOut) => after_wait_failure(
            m,
            seq!["timed out after 900s waiting for the recreate deployment to stabilize"@],
        ),
        (Phase::Waiting, EventView::WaitFailed(e)) => after_wait_failure(m, e),
        (Phase::Waiting, EventView::Stable) => if m.expected is Some {
            look(m, Phase::Verifying, Seq::empty())
        } else {
            after_wait_failure(
                m,
                seq![
                    "UpdateService returned no PRIMARY deployment id — cannot verify the recreate deployment"@,
                ],
            )
        },
        (Phase::Verifying, EventView::Described(svc)) => match restart::deployment_problem(
            m.expected->0,
            svc,
        ) {
            Some(p) => after_wait_failure(m, seq![p.1]),
            None => attempt(m, seq!["✓ Deployment stable for "@ + m.alias]),
        },
        (Phase::Verifying, EventView::DescribeFailed(e)) => after_wait_failure(
            m,
            seq!["DescribeServices failed during post-wait verification"@, e],
        ),
        (Phase::Reading, EventView::Described(svc)) => match restart::restore_view(
            svc,
            m.saved,
            m.az_enabled,
        ) {
            RestoreView::Restored => conclude(m, Ok(())),
            RestoreView::Write(configuration) => (
                RecreateView { phase: Phase::Writing, ..m },
                StepView {
                    lines: Seq::empty(),
                    action: ActionView::Write { configuration, enable_rebalancing: m.az_enabled },
                },
            ),
            RestoreView::Refused(p) => after_failure(m, seq![p.1]),
        },
        (Phase::Reading, EventView::DescribeFailed(e)) => after_failure(
            m,
            seq!["DescribeServices failed before restoration"@, e],
        ),
        (Phase::Writing, EventView::Written) => look(m, Phase::Checking, Seq::empty()),
        (Phase::Writing, EventView::WriteFailed(e)) => after_failure(m, seq![e]),
        (Phase::Checking, EventView::Described(svc)) => match restart::restored_problem(
            svc,
            m.saved,
            m.az_enabled,
        ) {
            Some(p) => after_failure(m, seq![p.1]),
            None => conclude(m, Ok(())),
        },
        (Phase::Checking, EventView::DescribeFailed(e)) => after_failure(
            m,
            seq!["DescribeServices failed during restore verification"@, e],
        ),
        (Phase::Pausing, EventView::Paused) => attempt(m, Seq::empty()),
        _ => finish(m, Seq::empty(), Ok(())),
    }
}

/// The messages of a result.
pub open spec fn outcome(r: Result<(), Vec<String>>) -> Result<(), Seq<Seq<char>>> {
    match r {
        Ok(()) => Ok(()),
        Err(e) => Err(text::texts(e@)),
    }
}

fn no_lines() -> (r: Vec<String>)
    ensures
        text::texts(r@) == Seq::<Seq<char>>::empty(),
{
    let out: Vec<String> = Vec::new();
    assert(text::texts(out@) =~= Seq::empty());
    out
}

fn one_line(s: String) -> (r: Vec<String>)
    ensures
        text::texts(r@) == seq![s@],
        r@.len() == 1,
{
    let mut out: Vec<String> = Vec::new();
    let ghost line = s@;
    out.push(s);
    assert(text::texts(out@) =~= seq![line]);
    out
}

fn two_lines(a: String, b: String) -> (r: Vec<String>)
    ensures
        text::texts(r@) == seq![a@, b@],
        r@.len() == 2,
{
    let ghost first = a@;
    let ghost second = b@;
    let mut out: Vec<String> = Vec::new();
    out.push(a);
    out.push(b);
    assert(text::texts(out@) =~= seq![first, second]);
    out
}

/// One message before others.
fn behind(first: String, mut rest: Vec<String>) -> (r: Vec<String>)
    ensures
        text::texts(r@) == seq![first@] + text::texts(rest@),
{
    let ghost line = first@;
    let ghost others = rest@;
    let mut out: Vec<String> = Vec::new();
    out.push(first);
    out.append(&mut rest);
    assert(text::texts(out@) =~= seq![line] + text::texts(others));
    out
}

fn about(start: &str, alias: &str, rest: &str) -> (r: String)
    ensures
        r@ == start@ + alias@ + rest@,
{
    let mut m = String::from_str(start);
    m.append(alias);
    m.append(rest);
    m
}

impl<R: Copy> Recreate<R> {
    /// Begins a restart, unless something stands against it: the first thing to
    /// do is to give the service the temporary policy.
    pub fn start(alias: &str, svc: &ServiceState<R>) -> (r: Result<
        (Recreate<R>, Action<R>),
        Error<RestartProblem>,
    >)
        ensures
            match r {
                Ok((m, action)) => {
                    &&& restart::preflight_problem(alias@, svc@) is None
                    &&& m@ == (RecreateView {
                        alias: alias@,
                        saved: svc@.deployment_configuration->0,
                        az_enabled: svc.az_rebalancing,
                        phase: Phase::Updating,
                        expected: None,
                        attempts: 0,
                        update_error: None,
                        wait_error: None,
                    })
                    &&& sound(m@)
                    &&& action@ == (ActionView::Update {
                        configuration: restart::recreate_view(m@.saved),
                        disable_rebalancing: m@.az_enabled,
                    })
                },
                Err(e) => restart::preflight_problem(alias@, svc@) == Some(e@),
            },
            r is Ok <==> {
                &&& svc.deployment_controller matches Some(c) ==> c@ == "Ecs"@
                &&& svc.scheduling_strategy matches Some(s) ==> s@ == "Replica"@
                &&& svc.desired_count == 1
                &&& svc.deployment_configuration matches Some(c) && (c.strategy matches Some(s)
                    ==> s@ == "Rolling"@)
            },
            r matches Ok((m, Action::Update { configuration, disable_rebalancing })) ==> {
                &&& configuration.minimum_healthy_percent == Some(0i32)
                &&& configuration.maximum_percent == Some(100i32)
                &&& configuration.other == svc.deployment_configuration->0.other
                &&& disable_rebalancing == svc.az_rebalancing
            },
    {
        match preflight(alias, svc) {
            Ok((saved, az_enabled)) => {
                let configuration = recreate_deployment_configuration(&saved);
                let m = Recreate {
                    alias: String::from_str(alias),
                    saved,
                    az_enabled,
                    phase: Phase::Updating,
                    expected: None,
                    attempts: 0,
                    update_error: None,
                    wait_error: None,
                };
                Ok((m, Action::Update { configuration, disable_rebalancing: az_enabled }))
            },
            Err(e) => Err(e),
        }
    }

    /// The line from which an operator can undo the restart by hand.
    pub fn snapshot(&self) -> (r: String)
        ensures
            r@ == restart::snapshot_line(self@.alias, self@.saved, self@.az_enabled),
    {
        restart::recovery_snapshot(self.alias.as_str(), &self.saved, self.az_enabled)
    }

    fn look(&mut self, phase: Phase, lines: Vec<String>) -> (r: Step<R>)
        ensures
            (final(self)@, r@) == look(old(self)@, phase, text::texts(lines@)),
    {
        self.phase = phase;
        Step { lines, action: Action::Describe }
    }

    fn attempt(&mut self, lines: Vec<String>) -> (r: Step<R>)
        requires
            old(self)@.attempts < 3,
        ensures
            (final(self)@, r@) == attempt(old(self)@, text::texts(lines@)),
    {
        self.attempts = self.attempts + 1;
        self.look(Phase::Reading, lines)
    }

    fn finish(&mut self, lines: Vec<String>, result: Result<(), Vec<String>>) -> (r: Step<R>)
        ensures
            (final(self)@, r@) == finish(old(self)@, text::texts(lines@), outcome(result)),
    {
        self.phase = Phase::Finished;
        Step { lines, action: Action::Finish(result) }
    }

    fn update_failure(&self) -> (r: Vec<String>)
        requires
            self@.update_error is Some,
        ensures
            text::texts(r@) == update_failure(self@),
    {
        let mut m = String::from_str("UpdateService failed for ");
        m.append(self.alias.as_str());
        match &self.update_error {
            Some(e) => two_lines(m, e.clone()),
            None => one_line(m),
        }
    }

    fn wait_failed(&mut self, e: Vec<String>) -> (r: Step<R>)
        requires
            old(self)@.attempts < 3,
        ensures
            (final(self)@, r@) == after_wait_failure(old(self)@, text::texts(e@)),
    {
        self.wait_error = Some(e);
        self.attempt(no_lines())
    }

    fn conclude(&mut self, restored: Result<(), Vec<String>>) -> (r: Step<R>)
        requires
            restored matches Err(e) ==> e@.len() > 0,
        ensures
            (final(self)@, r@) == conclude(old(self)@, outcome(restored)),
    {
        let ghost view = self@;
        let ghost seen = outcome(restored);
        let alias = self.alias.as_str();
        let line = match &restored {
            Ok(()) => {
                let mut m = String::from_str("✓ Restored previous deployment configuration for ");
                m.append(alias);
                m
            },
            Err(e) => {
                let mut m = String::from_str("❌ ");
                m.append(alias);
                if self.update_error.is_some() {
                    m.append(": restoration after ambiguous write also failed (");
                    m.append(e[0].as_str());
                    m.append(") — restore manually using the recovery snapshot above");
                } else {
                    m.append(": failed to restore deployment configuration (");
                    m.append(e[0].as_str());
                    m.append(
                        ") — the service is left with min=0/max=100 (future deploys stop-first); restore manually with `aws ecs update-service` using the recovery snapshot above",
                    );
                }
                m
            },
        };
        assert(line@ == restore_line(view, seen));
        let result = if self.update_error.is_some() {
            Err(self.update_failure())
        } else {
            match (&self.wait_error, restored) {
                (None, Ok(())) => Ok(()),
                (Some(we), Ok(())) => Err(
                    behind(
                        about(
                            "",
                            alias,
                            ": recreate deployment did not stabilize (original deployment configuration was restored)",
                        ),
                        text::copy_all(we),
                    ),
                ),
                (None, Err(re)) => Err(
                    behind(
                        about(
                            "",
                            alias,
                            ": recreate deployment succeeded but restoring the deployment configuration failed",
                        ),
                        re,
                    ),
                ),
                (Some(we), Err(_)) => Err(
                    behind(
                        about(
                            "",
                            alias,
                            ": recreate deployment did not stabilize AND the deployment configuration could not be restored",
                        ),
                        text::copy_all(we),
                    ),
                ),
            }
        };
        proof {
            reveal_strlit("");
            assert(""@ + view.alias =~= view.alias);
            assert(outcome(result) == result_of(view, seen));
        }
        self.finish(one_line(line), result)
    }

    fn failed(&mut self, e: Vec<String>) -> (r: Step<R>)
        requires
            e@.len() > 0,
            old(self)@.attempts >= 0,
        ensures
            (final(self)@, r@) == after_failure(old(self)@, text::texts(e@)),
    {
        assert(text::texts(e@)[0] == e@[0]@);
        if text::contains(e[0].as_str(), "ownership lost") {
            return self.conclude(Err(e));
        }
        if self.attempts < RESTORE_ATTEMPTS {
            let mut m = String::from_str("⚠️  restore attempt ");
            m.append(number::to_decimal_int(self.attempts as i128).as_str());
            m.append("/3 failed, retrying: ");
            m.append(e[0].as_str());
            self.phase = Phase::Pausing;
            return Step { lines: one_line(m), action: Action::Pause };
        }
        let mut m = String::from_str("all 3 restore attempts failed: ");
        m.append(e[0].as_str());
        self.conclude(Err(one_line(m)))
    }

    /// Goes on with a restart after an event.
    pub fn step(&mut self, event: Event<R>) -> (r: Step<R>)
        requires
            sound(old(self)@),
            fits(old(self)@.phase, event@),
        ensures
            (final(self)@, r@) == next(old(self)@, event@),
            sound(final(self)@),
    {
        proof {
            lemma_next_is_sound(self@, event@);
        }
        match (self.phase, event) {
            (Phase::Updating, Event::Updated(list)) => {
                self.expected = primary_deployment_id(&list);
                self.phase = Phase::Waiting;
                Step {
                    lines: one_line(
                        String::from_str(
                            "⏳ Waiting for deployment to stabilize (old task stops before new one starts)...",
                        ),
                    ),
                    action: Action::Wait,
                }
            },
            (Phase::Updating, Event::UpdateFailed(e)) => {
                let line = about(
                    "⚠️  ",
                    self.alias.as_str(),
                    ": UpdateService failed; reconciling whether the temporary policy was applied...",
                );
                self.update_error = Some(e);
                self.look(Phase::Reconciling, one_line(line))
            },
            (Phase::Reconciling, Event::Described(svc)) => {
                let live = match &svc {
                    Some(svc) => temp_policy_may_be_live(svc, self.az_enabled),
                    None => false,
                };
                if live {
                    let line = about(
                        "⚠️  ",
                        self.alias.as_str(),
                        ": temporary policy is live despite the error — restoring...",
                    );
                    self.attempt(one_line(line))
                } else {
                    let e = self.update_failure();
                    self.finish(no_lines(), Err(e))
                }
            },
            (Phase::Reconciling, Event::DescribeFailed(e)) => {
                let mut line = about(
                    "❌ ",
                    self.alias.as_str(),
                    ": could not reconcile ambiguous write (",
                );
                line.append(e.as_str());
                line.append(
                    ") — verify the service manually against the recovery snapshot above",
                );
                let failure = self.update_failure();
                self.finish(one_line(line), Err(failure))
            },
            (Phase::Waiting, Event::Cancelled) => self.wait_failed(
                one_line(String::from_str("cancelled while waiting for the recreate deployment")),
            ),
            (Phase::Waiting, Event::TimedOut) => self.wait_failed(
                one_line(
                    String::from_str(
                        "timed out after 900s waiting for the recreate deployment to stabilize",
                    ),
                ),
            ),
            (Phase::Waiting, Event::WaitFailed(e)) => self.wait_failed(e),
            (Phase::Waiting, Event::Stable) => {
                if self.expected.is_some() {
                    self.look(Phase::Verifying, no_lines())
                } else {
                    self.wait_failed(
                        one_line(
                            String::from_str(
                                "UpdateService returned no PRIMARY deployment id — cannot verify the recreate deployment",
                            ),
                        ),
                    )
                }
            },
            (Phase::Verifying, Event::Described(svc)) => {
                let verdict = match &self.expected {
                    Some(expected) => check_deployment(expected.as_str(), &svc),
                    None => Ok(()),
                };
                match verdict {
                    Err(e) => self.wait_failed(one_line(e.message)),
                    Ok(()) => {
                        let mut line = String::from_str("✓ Deployment stable for ");
                        line.append(self.alias.as_str());
                        self.attempt(one_line(line))
                    },
                }
            },
            (Phase::Verifying, Event::DescribeFailed(e)) => self.wait_failed(
                two_lines(
                    String::from_str("DescribeServices failed during post-wait verification"),
                    e,
                ),
            ),
            (Phase::Reading, Event::Described(svc)) => {
                match decide_restore(&svc, &self.saved, self.az_enabled) {
                    RestoreDecision::Restored => self.conclude(Ok(())),
                    RestoreDecision::Write(configuration) => {
                        self.phase = Phase::Writing;
                        Step {
                            lines: no_lines(),
                            action: Action::Write {
                                configuration,
                                enable_rebalancing: self.az_enabled,
                            },
                        }
                    },
                    RestoreDecision::Refused(e) => self.failed(one_line(e.message)),
                }
            },
            (Phase::Reading, Event::DescribeFailed(e)) => self.failed(
                two_lines(String::from_str("DescribeServices failed before restoration"), e),
            ),
            (Phase::Writing, Event::Written) => self.look(Phase::Checking, no_lines()),
            (Phase::Writing, Event::WriteFailed(e)) => self.failed(one_line(e)),
            (Phase::Checking, Event::Described(svc)) => {
                match check_restored(&svc, &self.saved, self.az_enabled) {
                    Err(e) => self.failed(one_line(e.message)),
                    Ok(()) => self.conclude(Ok(())),
                }
            },
            (Phase::Checking, Event::DescribeFailed(e)) => self.failed(
                two_lines(
                    String::from_str("DescribeServices failed during restore verification"),
                    e,
                ),
            ),
            (Phase::Pausing, Event::Paused) => self.attempt(no_lines()),
            _ => self.finish(no_lines(), Ok(())),
        }
    }
}

/// Every step leads to a state that a restart can be in.
proof fn lemma_next_is_sound<R>(m: RecreateView<R>, event: EventView<R>)
    requires
        sound(m),
        fits(m.phase, event),
    ensures
        sound(next(m, event).0),
{
}

/// How many more steps a restart can take at most.
pub open spec fn steps_left<R>(m: RecreateView<R>) -> int {
    match m.phase {
        Phase::Updating => 20,
        Phase::Reconciling | Phase::Waiting => 19,
        Phase::Verifying => 18,
        Phase::Reading => (3 - m.attempts) * 5 + 4,
        Phase::Writing => (3 - m.attempts) * 5 + 3,
        Phase::Checking => (3 - m.attempts) * 5 + 2,
        Phase::Pausing => (3 - m.attempts) * 5 + 1,
        Phase::Finished => 0,
    }
}

/// A restart comes to an end: every step leaves fewer to be taken, and the last
/// one is taken exactly when the end is reported.
pub proof fn lemma_restart_ends<R>(m: RecreateView<R>, event: EventView<R>)
    requires
        sound(m),
        fits(m.phase, event),
    ensures
        0 <= steps_left(next(m, event).0) < steps_left(m) <= 20,
        next(m, event).0.phase == Phase::Finished <==> next(m, event).1.action is Finish,
{
}

/// Nobody else's policy is overwritten: a policy is written only in answer to a
/// look at the service that showed the temporary policy, and what is written is
/// what was seen, with the saved percentages.
pub proof fn lemma_writes_only_while_owned<R>(m: RecreateView<R>, event: EventView<R>)
    requires
        sound(m),
        fits(m.phase, event),
        next(m, event).1.action is Write,
    ensures
        event matches EventView::Described(Some(svc)) && svc.deployment_configuration matches Some(
            current,
        ) && restart::owned(current, svc.az_rebalancing, m.az_enabled) && next(m, event).1.action
            == (ActionView::Write {
            configuration: restart::merged_view(current, m.saved),
            enable_rebalancing: m.az_enabled,
        }),
{
}

/// Once the temporary policy was given, a restart does not end before giving the
/// old one back has been tried: neither a failed wait nor a cancellation ends it.
pub proof fn lemma_ends_only_after_restoring<R>(m: RecreateView<R>, event: EventView<R>)
    requires
        sound(m),
        fits(m.phase, event),
        next(m, event).1.action is Finish,
    ensures
        m.phase == Phase::Reconciling || (1 <= m.attempts <= 3 && (m.phase == Phase::Reading
            || m.phase == Phase::Writing || m.phase == Phase::Checking)),
        m.phase == Phase::Reconciling && event is Described ==> !(event->Described_0 matches Some(
            svc,
        ) && restart::policy_may_be_live(svc, m.az_enabled)),
{
}

/// A restart succeeds only if the temporary policy was given, the expected
/// deployment came to rest, and the last look at the service showed the saved
/// percentages and rebalancing.
pub proof fn lemma_success_means_restored<R>(m: RecreateView<R>, event: EventView<R>)
    requires
        sound(m),
        fits(m.phase, event),
        next(m, event).1.action == ActionView::<R>::Finish(Ok(())),
    ensures
        m.update_error is None,
        m.wait_error is None,
        event matches EventView::Described(Some(svc)) && svc.deployment_configuration matches Some(
            current,
        ) && restart::same_percentages(current, m.saved) && svc.az_rebalancing == m.az_enabled,
{
}

/// A policy that somebody else has changed is left alone for good: the restart
/// fails at once, without another attempt.
pub proof fn lemma_lost_ownership_is_final<R>(m: RecreateView<R>, svc: StateView<R>)
    requires
        sound(m),
        m.phase == Phase::Reading,
        svc.deployment_configuration matches Some(current) && !restart::owned(
            current,
            svc.az_rebalancing,
            m.az_enabled,
        ) && !(restart::same_percentages(current, m.saved) && svc.az_rebalancing == m.az_enabled),
    ensures
        next(m, EventView::Described(Some(svc))).1.action matches ActionView::Finish(Err(_)),
{
    let current = svc.deployment_configuration->0;
    let head = "ownership lost: the service's deployment configuration was changed concurrently (min/max are "@;
    let message = head + restart::shown(current.minimum_healthy_percent) + "/"@ + restart::shown(
        current.maximum_percent,
    ) + ") — not overwriting; reconcile manually or via your IaC"@;
    reveal_strlit(
        "ownership lost: the service's deployment configuration was changed concurrently (min/max are ",
    );
    reveal_strlit("ownership lost");
    let n = "ownership lost"@.len() as int;
    assert(message.subrange(0, 0 + n) =~= "ownership lost"@);
    assert(text::occurs(message, "ownership lost"@));
}

/// A deployment that was not seen to come to rest as expected is remembered to
/// the end.
pub proof fn lemma_wait_error_is_kept<R>(m: RecreateView<R>, event: EventView<R>)
    requires
        sound(m),
        fits(m.phase, event),
    ensures
        m.wait_error is Some ==> next(m, event).0.wait_error == m.wait_error,
        m.phase == Phase::Waiting && !(event is Stable) ==> next(m, event).0.wait_error is Some,
        m.phase == Phase::Verifying && !(event matches EventView::Described(svc)
            && restart::deployment_problem(m.expected->0, svc) is None) ==> next(
            m,
            event,
        ).0.wait_error is Some,
{
}

/// Once the temporary policy is given, the restart waits, and remembers which
/// deployment is to come to rest: the primary one, which is the first of that status.
pub proof fn lemma_waits_for_primary<R>(
    m: RecreateView<R>,
    list: Seq<deployment::DeploymentView>,
    p: int,
)
    requires
        m.phase == Phase::Updating,
        0 <= p < list.len(),
        list[p].status == Some("PRIMARY"@),
        forall|j: int| 0 <= j < p ==> (#[trigger] list[j]).status != Some("PRIMARY"@),
    ensures
        next(m, EventView::Updated(list)).1.action is Wait,
        next(m, EventView::Updated(list)).0 == (RecreateView {
            phase: Phase::Waiting,
            expected: list[p].id,
            ..m
        }),
{
    deployment::lemma_primary_is_first(list);
    let q = deployment::primary_place(list, 0);
    if q < p {
        assert(list[q].status != Some("PRIMARY"@));
    }
    if p < q {
        assert(list[p].status != Some("PRIMARY"@));
    }
}

/// Where giving the temporary policy fails, the service is looked at: any trace of the
/// policy has the old one given back, and without one the restart fails at once. Either
/// way the failure is remembered.
pub proof fn lemma_failed_update_is_reconciled<R>(
    m: RecreateView<R>,
    e: Seq<char>,
    svc: StateView<R>,
    c: ConfigurationView<R>,
)
    requires
        sound(m),
        m.phase == Phase::Updating,
        svc.deployment_configuration == Some(c),
    ensures
        next(m, EventView::UpdateFailed(e)).1.action is Describe,
        next(m, EventView::UpdateFailed(e)).0.update_error == Some(e),
        ({
            let after = next(m, EventView::UpdateFailed(e)).0;
            let step = next(after, EventView::Described(Some(svc)));
            if c.minimum_healthy_percent == Some(0i32) || c.maximum_percent == Some(100i32) || (
            m.az_enabled && !svc.az_rebalancing) {
                &&& step.1.action is Describe
                &&& step.0.phase == Phase::Reading
                &&& step.0.attempts == 1
                &&& step.0.update_error == Some(e)
            } else {
                step.1.action matches ActionView::Finish(Err(messages)) && messages.contains(e)
            }
        }),
{
    let after = next(m, EventView::UpdateFailed(e)).0;
    let failure = update_failure(after);
    assert(failure[1] == e);
}

/// After a wait that ended well, the service is looked at before the policy is given
/// back; after any other end the policy is given back all the same.
pub proof fn lemma_after_waiting<R>(m: RecreateView<R>, event: EventView<R>)
    requires
        sound(m),
        m.phase == Phase::Waiting,
        fits(m.phase, event),
    ensures
        next(m, event).1.action is Describe,
        event is Stable && m.expected is Some ==> next(m, event).0 == (RecreateView {
            phase: Phase::Verifying,
            ..m
        }),
        !(event is Stable && m.expected is Some) ==> {
            &&& next(m, event).0.phase == Phase::Reading
            &&& next(m, event).0.attempts == 1
            &&& next(m, event).0.wait_error is Some
        },
        event matches EventView::WaitFailed(e) ==> next(m, event).0.wait_error == Some(e),
{
}

/// The deployment that came to rest is the expected one exactly if the primary
/// deployment has its identifier. Only then is nothing held against the restart; the
/// policy is given back either way.
pub proof fn lemma_verified_deployment<R>(m: RecreateView<R>, svc: StateView<R>, p: int)
    requires
        sound(m),
        m.phase == Phase::Verifying,
        m.expected->0.len() > 0,
        0 <= p < svc.deployments.len(),
        svc.deployments[p].status == Some("PRIMARY"@),
        forall|j: int|
            0 <= j < p ==> (#[trigger] svc.deployments[j]).status != Some("PRIMARY"@),
    ensures
        next(m, EventView::Described(Some(svc))).1.action is Describe,
        next(m, EventView::Described(Some(svc))).0.phase == Phase::Reading,
        next(m, EventView::Described(Some(svc))).0.attempts == 1,
        next(m, EventView::Described(Some(svc))).0.wait_error is None <==> svc.deployments[p].id
            == m.expected,
{
    restart::lemma_expected_deployment(m.expected->0, svc, p);
}

/// While a policy is given back: one that is back ends the restart, the temporary one is
/// overwritten with the saved percentages and nothing else, and rebalancing is turned on
/// again if it was on.
pub proof fn lemma_policy_is_given_back<R>(
    m: RecreateView<R>,
    svc: StateView<R>,
    c: ConfigurationView<R>,
)
    requires
        sound(m),
        m.phase == Phase::Reading,
        svc.deployment_configuration == Some(c),
    ensures
        c.minimum_healthy_percent == m.saved.minimum_healthy_percent && c.maximum_percent
            == m.saved.maximum_percent && svc.az_rebalancing == m.az_enabled ==> next(
            m,
            EventView::Described(Some(svc)),
        ).1.action is Finish,
        !(c.minimum_healthy_percent == m.saved.minimum_healthy_percent && c.maximum_percent
            == m.saved.maximum_percent && svc.az_rebalancing == m.az_enabled)
            && c.minimum_healthy_percent == Some(0i32) && c.maximum_percent == Some(100i32) && !(
        m.az_enabled && svc.az_rebalancing) ==> next(m, EventView::Described(Some(svc))).1.action
            == (ActionView::Write {
            configuration: ConfigurationView {
                minimum_healthy_percent: m.saved.minimum_healthy_percent,
                maximum_percent: m.saved.maximum_percent,
                strategy: c.strategy,
                other: c.other,
            },
            enable_rebalancing: m.az_enabled,
        }),
{
}

/// A restart with nothing held against it succeeds exactly when the saved policy is
/// seen, before it is written or after.
pub proof fn lemma_restored_is_success<R>(
    m: RecreateView<R>,
    svc: StateView<R>,
    c: ConfigurationView<R>,
)
    requires
        sound(m),
        m.phase == Phase::Reading || m.phase == Phase::Checking,
        m.update_error is None,
        m.wait_error is None,
        svc.deployment_configuration == Some(c),
    ensures
        next(m, EventView::Described(Some(svc))).1.action == ActionView::<R>::Finish(Ok(())) <==> {
            &&& c.minimum_healthy_percent == m.saved.minimum_healthy_percent
            &&& c.maximum_percent == m.saved.maximum_percent
            &&& svc.az_rebalancing == m.az_enabled
        },
{
}

/// An attempt that fails is made again, up to three times, unless it failed because the
/// policy is somebody else's; a pause comes before it.
pub proof fn lemma_restore_is_tried_three_times<R>(m: RecreateView<R>, e: Seq<char>)
    requires
        sound(m),
        m.phase == Phase::Writing,
        !text::occurs(e, "ownership lost"@),
    ensures
        m.attempts < 3 ==> next(m, EventView::WriteFailed(e)).1.action is Pause,
        m.attempts >= 3 ==> (next(m, EventView::WriteFailed(e)).1.action matches ActionView::Finish(
            Err(_),
        )),
        m.attempts < 3 ==> {
            let paused = next(m, EventView::WriteFailed(e)).0;
            let again = next(paused, EventView::<R>::Paused);
            &&& again.0.phase == Phase::Reading
            &&& again.0.attempts == m.attempts + 1
            &&& again.1.action is Describe
        },
        next(m, EventView::<R>::Written).1.action is Describe,
        next(m, EventView::<R>::Written).0.phase == Phase::Checking,
{
}

/// What a restart ends with names what went wrong: a policy that could not be given, or
/// else a deployment that did not come to rest, or else a policy that could not be given
/// back.
pub proof fn lemma_result_tells_failure<R>(
    m: RecreateView<R>,
    restored: Result<(), Seq<Seq<char>>>,
)
    ensures
        result_of(m, restored) is Ok <==> m.update_error is None && m.wait_error is None
            && restored is Ok,
        m.update_error is Some ==> (result_of(m, restored) matches Err(list) && list.contains(
            m.update_error->0,
        )),
        m.update_error is None && m.wait_error is Some ==> (result_of(m, restored) matches Err(list)
            && m.wait_error->0.is_suffix_of(list)),
        m.update_error is None && m.wait_error is None && restored is Err ==> (result_of(
            m,
            restored,
        ) matches Err(list) && restored->Err_0.is_suffix_of(list)),
{
    if m.update_error is Some {
        assert(update_failure(m)[1] == m.update_error->0);
    } else if m.wait_error is Some {
        let list = result_of(m, restored)->Err_0;
        let we = m.wait_error->0;
        assert(list.subrange(list.len() - we.len(), list.len() as int) =~= we);
    } else if restored is Err {
        let list = result_of(m, restored)->Err_0;
        let re = restored->Err_0;
        assert(list.subrange(list.len() - re.len(), list.len() as int) =~= re);
    }
}

/// The policy that was saved, and whether tasks were rebalanced, stay what they were
/// from the first step to the last.
pub proof fn lemma_saved_policy_stays<R>(m: RecreateView<R>, event: EventView<R>)
    ensures
        next(m, event).0.saved == m.saved,
        next(m, event).0.az_enabled == m.az_enabled,
        next(m, event).0.alias == m.alias,
        next(m, event).0.attempts >= m.attempts,
        m.update_error is Some ==> m.phase != Phase::Updating ==> next(m, event).0.update_error
            == m.update_error,
{
}

/// What is said at the end names the service; where the policy could not be given back it
/// begins with a mark for failure and says what went wrong.
pub proof fn lemma_last_line<R>(m: RecreateView<R>, e: Seq<Seq<char>>)
    requires
        e.len() > 0,
    ensures
        restore_line(m, Ok(())) == "✓ Restored previous deployment configuration for "@ + m.alias,
        ("❌ "@ + m.alias + ": "@).is_prefix_of(restore_line(m, Err(e))),
        text::occurs(restore_line(m, Err(e)), e[0]),
{
    reveal_strlit(": ");
    reveal_strlit(": restoration after ambiguous write also failed (");
    reveal_strlit(": failed to restore deployment configuration (");
    let line = restore_line(m, Err(e));
    let head = "❌ "@ + m.alias + ": "@;
    if m.update_error is Some {
        let tail = ") — restore manually using the recovery snapshot above"@;
        let front = "❌ "@ + m.alias + ": restoration after ambiguous write also failed ("@;
        text::lemma_occurs(front, e[0], tail);
        assert(line == front + e[0] + tail);
        assert(line.subrange(0, head.len() as int) =~= head);
    } else {
        let tail =
            ") — the service is left with min=0/max=100 (future deploys stop-first); restore manually with `aws ecs update-service` using the recovery snapshot above"@;
        let front = "❌ "@ + m.alias + ": failed to restore deployment configuration ("@;
        text::lemma_occurs(front, e[0], tail);
        assert(line == front + e[0] + tail);
        assert(line.subrange(0, head.len() as int) =~= head);
    }
}

} // verus!
