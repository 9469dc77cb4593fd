//! Restarting a service so that the old task stops before the new one starts.
//!
//! For that, a service is given a temporary deployment policy, which is taken
//! back afterwards.

use crate::deployment;
use crate::deployment::{Deployment, DeploymentView};
use crate::error::Error;
use crate::number;
use crate::text;
use crate::text::same;
use vstd::prelude::*;

verus! {

/// How many seconds a temporary policy is kept while a deployment does not come
/// to rest.
pub const RECREATE_WAIT_TIMEOUT_SECS: u64 = 900;

/// How a restart is to be done.
#[derive(Debug, Clone, Copy, Default)]
pub struct RestartOptions {
    /// Wait for the deployment to come to rest.
    pub wait: bool,
    /// Stop the old task before the new one starts.
    pub recreate: bool,
}

/// How ECS replaces the tasks of a service. `other` stands for all the settings
/// that a restart neither reads nor changes.
#[derive(Debug)]
pub struct DeploymentConfiguration<R> {
    pub minimum_healthy_percent: Option<i32>,
    pub maximum_percent: Option<i32>,
    pub strategy: Option<String>,
    pub other: R,
}

/// What a [`DeploymentConfiguration`] says.
#[verifier::ext_equal]
pub struct ConfigurationView<R> {
    pub minimum_healthy_percent: Option<i32>,
    pub maximum_percent: Option<i32>,
    pub strategy: Option<Seq<char>>,
    pub other: R,
}

impl<R> View for DeploymentConfiguration<R> {
    type V = ConfigurationView<R>;

    open spec fn view(&self) -> ConfigurationView<R> {
        ConfigurationView {
            minimum_healthy_percent: self.minimum_healthy_percent,
            maximum_percent: self.maximum_percent,
            strategy: text::opt_text(self.strategy),
            other: self.other,
        }
    }
}

impl<R: Copy> DeploymentConfiguration<R> {
    /// A copy.
    pub fn copy(&self) -> (r: Self)
        ensures
            r@ == self@,
    {
        DeploymentConfiguration {
            minimum_healthy_percent: self.minimum_healthy_percent,
            maximum_percent: self.maximum_percent,
            strategy: text::copy_opt(&self.strategy),
            other: self.other,
        }
    }
}

/// A service, as far as a restart looks at it. The controller, the scheduling
/// and the strategy are named as the SDK shows them.
#[derive(Debug)]
pub struct ServiceState<R> {
    pub deployment_controller: Option<String>,
    pub scheduling_strategy: Option<String>,
    pub desired_count: i32,
    pub deployment_configuration: Option<DeploymentConfiguration<R>>,
    /// Whether ECS spreads the tasks over the availability zones again and
    /// again.
    pub az_rebalancing: bool,
    pub deployments: Vec<Deployment>,
}

/// What a [`ServiceState`] says.
#[verifier::ext_equal]
pub struct StateView<R> {
    pub deployment_controller: Option<Seq<char>>,
    pub scheduling_strategy: Option<Seq<char>>,
    pub desired_count: i32,
    pub deployment_configuration: Option<ConfigurationView<R>>,
    pub az_rebalancing: bool,
    pub deployments: Seq<DeploymentView>,
}

impl<R> View for ServiceState<R> {
    type V = StateView<R>;

    open spec fn view(&self) -> StateView<R> {
        StateView {
            deployment_controller: text::opt_text(self.deployment_controller),
            scheduling_strategy: text::opt_text(self.scheduling_strategy),
            desired_count: self.desired_count,
            deployment_configuration: match self.deployment_configuration {
                Some(c) => Some(c@),
                None => None,
            },
            az_rebalancing: self.az_rebalancing,
            deployments: deployment::deployment_views(self.deployments@),
        }
    }
}

/// What can be wrong with a restart.
#[derive(Debug, Clone, Copy, PartialEq, Eq, Structural)]
pub enum RestartProblem {
    Controller,
    Scheduling,
    NotASingleton,
    NoConfiguration,
    Strategy,
    ServiceNotFound,
    NoDeploymentId,
    NoPrimaryDeployment,
    OtherDeployment,
    OwnershipLost,
    NotRestored,
    ZoneRebalancing,
}

/// A problem and the message that explains it.
pub type Problem = (RestartProblem, Seq<char>);

/// The policy under which ECS stops the old task first: the saved one, except
/// for the two percentages.
pub open spec fn recreate_view<R>(saved: ConfigurationView<R>) -> ConfigurationView<R> {
    ConfigurationView {
        minimum_healthy_percent: Some(0),
        maximum_percent: Some(100),
        ..saved
    }
}

/// Makes the policy under which ECS stops the old task first.
pub fn recreate_deployment_configuration<R: Copy>(saved: &DeploymentConfiguration<R>) -> (r:
    DeploymentConfiguration<R>)
    ensures
        r@ == recreate_view(saved@),
        r.minimum_healthy_percent == Some(0i32),
        r.maximum_percent == Some(100i32),
        r@.strategy == saved@.strategy,
        r.other == saved.other,
{
    let mut cfg = saved.copy();
    cfg.minimum_healthy_percent = Some(0);
    cfg.maximum_percent = Some(100);
    cfg
}

/// The policy that a service is given back: the one it has now, except for the
/// two percentages, which are those of the saved one.
pub open spec fn merged_view<R>(
    current: ConfigurationView<R>,
    saved: ConfigurationView<R>,
) -> ConfigurationView<R> {
    ConfigurationView {
        minimum_healthy_percent: saved.minimum_healthy_percent,
        maximum_percent: saved.maximum_percent,
        ..current
    }
}

/// Makes the policy that a service is given back. Whatever else was changed in
/// the meantime stays.
pub fn merged_restore_configuration<R: Copy>(
    current: &DeploymentConfiguration<R>,
    saved: &DeploymentConfiguration<R>,
) -> (r: DeploymentConfiguration<R>)
    ensures
        r@ == merged_view(current@, saved@),
        r.minimum_healthy_percent == saved.minimum_healthy_percent,
        r.maximum_percent == saved.maximum_percent,
        r@.strategy == current@.strategy,
        r.other == current.other,
{
    let mut cfg = current.copy();
    cfg.minimum_healthy_percent = saved.minimum_healthy_percent;
    cfg.maximum_percent = saved.maximum_percent;
    cfg
}

/// Whether a service still has the temporary policy.
pub open spec fn owned<R>(
    current: ConfigurationView<R>,
    current_az_enabled: bool,
    az_was_enabled: bool,
) -> bool {
    &&& current.minimum_healthy_percent == Some(0i32)
    &&& current.maximum_percent == Some(100i32)
    &&& az_was_enabled ==> !current_az_enabled
}

fn is_percent(p: Option<i32>, n: i32) -> (r: bool)
    ensures
        r == (p == Some(n)),
{
    match p {
        Some(m) => m == n,
        None => false,
    }
}

fn same_percent(a: Option<i32>, b: Option<i32>) -> (r: bool)
    ensures
        r == (a == b),
{
    match (a, b) {
        (Some(m), Some(n)) => m == n,
        (None, None) => true,
        _ => false,
    }
}

/// Whether a service still has the temporary policy. If not, somebody else has
/// changed it, and their change must not be overwritten.
pub fn temp_policy_owned<R>(
    current: &DeploymentConfiguration<R>,
    current_az_enabled: bool,
    az_was_enabled: bool,
) -> (r: bool)
    ensures
        r == owned(current@, current_az_enabled, az_was_enabled),
{
    is_percent(current.minimum_healthy_percent, 0) && is_percent(current.maximum_percent, 100) && (
    !az_was_enabled || !current_az_enabled)
}

/// How an optional number is shown.
pub open spec fn shown(p: Option<i32>) -> Seq<char> {
    match p {
        Some(n) => "Some("@ + number::decimal_int(n as int) + ")"@,
        None => "None"@,
    }
}

fn show(p: Option<i32>) -> (r: String)
    ensures
        r@ == shown(p),
{
    match p {
        Some(n) => {
            let mut m = String::from_str("Some(");
            m.append(number::to_decimal_int(n as i128).as_str());
            m.append(")");
            m
        },
        None => String::from_str("None"),
    }
}

/// Whether a service has the saved percentages.
pub open spec fn same_percentages<R>(a: ConfigurationView<R>, b: ConfigurationView<R>) -> bool {
    &&& a.minimum_healthy_percent == b.minimum_healthy_percent
    &&& a.maximum_percent == b.maximum_percent
}

/// What is said of a service that does not have the saved percentages.
pub open spec fn not_restored_message<R>(
    current: ConfigurationView<R>,
    saved: ConfigurationView<R>,
) -> Seq<char> {
    "restored min/max are "@ + shown(current.minimum_healthy_percent) + "/"@ + shown(
        current.maximum_percent,
    ) + ", expected "@ + shown(saved.minimum_healthy_percent) + "/"@ + shown(saved.maximum_percent)
        + " (concurrent update?)"@
}

/// Checks that a service has the saved percentages. No other setting is looked
/// at: it may have been changed for good reason.
pub fn validate_restored_configuration<R>(
    current: &DeploymentConfiguration<R>,
    saved: &DeploymentConfiguration<R>,
) -> (r: Result<(), Error<RestartProblem>>)
    ensures
        r is Ok <==> same_percentages(current@, saved@),
        r matches Err(e) ==> e@ == (
            RestartProblem::NotRestored,
            not_restored_message(current@, saved@),
        ),
{
    if same_percent(current.minimum_healthy_percent, saved.minimum_healthy_percent)
        && same_percent(current.maximum_percent, saved.maximum_percent) {
        return Ok(());
    }
    let mut m = String::from_str("restored min/max are ");
    m.append(show(current.minimum_healthy_percent).as_str());
    m.append("/");
    m.append(show(current.maximum_percent).as_str());
    m.append(", expected ");
    m.append(show(saved.minimum_healthy_percent).as_str());
    m.append("/");
    m.append(show(saved.maximum_percent).as_str());
    m.append(" (concurrent update?)");
    Err(Error { kind: RestartProblem::NotRestored, message: m })
}

/// What stands against stopping the old task of a service first.
pub open spec fn preflight_problem<R>(alias: Seq<char>, svc: StateView<R>) -> Option<Problem> {
    if svc.deployment_controller is Some && svc.deployment_controller != Some("Ecs"@) {
        Some(
            (
                RestartProblem::Controller,
                alias
                    + ": --recreate requires the default ECS rolling deployment controller (found "@
                    + svc.deployment_controller->0
                    + "); CODE_DEPLOY/EXTERNAL controllers ignore deploymentConfiguration percentages"@,
            ),
        )
    } else if svc.scheduling_strategy is Some && svc.scheduling_strategy != Some("Replica"@) {
        Some(
            (
                RestartProblem::Scheduling,
                alias + ": --recreate requires REPLICA scheduling (found "@
                    + svc.scheduling_strategy->0
                    + "); DAEMON services have no singleton stop-then-start semantics"@,
            ),
        )
    } else if svc.desired_count != 1 {
        Some(
            (
                RestartProblem::NotASingleton,
                alias
                    + ": --recreate guarantees stop-then-start only for singleton services (desiredCount=1, found "@
                    + number::decimal_int(svc.desired_count as int)
                    + "); with multiple tasks ECS interleaves per-task replacement"@,
            ),
        )
    } else if svc.deployment_configuration is None {
        Some(
            (
                RestartProblem::NoConfiguration,
                alias
                    + ": DescribeServices returned no deploymentConfiguration — cannot guarantee restoration, aborting before mutation"@,
            ),
        )
    } else if svc.deployment_configuration->0.strategy is Some
        && svc.deployment_configuration->0.strategy != Some("Rolling"@) {
        Some(
            (
                RestartProblem::Strategy,
                alias + ": --recreate requires the ROLLING deployment strategy (found "@
                    + svc.deployment_configuration->0.strategy->0
                    + "); min/max percentages do not provide stop-then-start under native blue/green or canary strategies"@,
            ),
        )
    } else {
        None
    }
}

fn complain(kind: RestartProblem, alias: &str, a: &str, found: &str, b: &str) -> (r: Error<
    RestartProblem,
>)
    ensures
        r@ == (kind, alias@ + a@ + found@ + b@),
{
    let mut m = String::from_str(alias);
    m.append(a);
    m.append(found);
    m.append(b);
    Error { kind, message: m }
}

/// Checks that stopping the old task first works for a service, and takes down
/// what has to be given back afterwards: the deployment configuration, and
/// whether the tasks are rebalanced.
///
/// Only a single task under the rolling controller and strategy of ECS is
/// certain to stop before its successor starts.
pub fn preflight<R: Copy>(alias: &str, svc: &ServiceState<R>) -> (r: Result<
    (DeploymentConfiguration<R>, bool),
    Error<RestartProblem>,
>)
    ensures
        match r {
            Ok((saved, az_enabled)) => {
                &&& preflight_problem(alias@, svc@) is None
                &&& svc@.deployment_configuration == Some(saved@)
                &&& az_enabled == svc.az_rebalancing
            },
            Err(e) => preflight_problem(alias@, svc@) == Some(e@),
        },
        r is Ok <==> {
            &&& svc.deployment_controller matches Some(c) ==> c@ == "Ecs"@
            &&& svc.scheduling_strategy matches Some(s) ==> s@ == "Replica"@
            &&& svc.desired_count == 1
            &&& svc.deployment_configuration matches Some(c) && (c.strategy matches Some(s) ==> s@
                == "Rolling"@)
        },
{
    match &svc.deployment_controller {
        Some(controller) => {
            if !same(controller.as_str(), "Ecs") {
                return Err(
                    complain(
                        RestartProblem::Controller,
                        alias,
                        ": --recreate requires the default ECS rolling deployment controller (found ",
                        controller.as_str(),
                        "); CODE_DEPLOY/EXTERNAL controllers ignore deploymentConfiguration percentages",
                    ),
                );
            }
        },
        None => {},
    }
    match &svc.scheduling_strategy {
        Some(sched) => {
            if !same(sched.as_str(), "Replica") {
                return Err(
                    complain(
                        RestartProblem::Scheduling,
                        alias,
                        ": --recreate requires REPLICA scheduling (found ",
                        sched.as_str(),
                        "); DAEMON services have no singleton stop-then-start semantics",
                    ),
                );
            }
        },
        None => {},
    }
    if svc.desired_count != 1 {
        return Err(
            complain(
                RestartProblem::NotASingleton,
                alias,
                ": --recreate guarantees stop-then-start only for singleton services (desiredCount=1, found ",
                number::to_decimal_int(svc.desired_count as i128).as_str(),
                "); with multiple tasks ECS interleaves per-task replacement",
            ),
        );
    }
    match &svc.deployment_configuration {
        None => {
            let mut m = String::from_str(alias);
            m.append(
                ": DescribeServices returned no deploymentConfiguration — cannot guarantee restoration, aborting before mutation",
            );
            Err(Error { kind: RestartProblem::NoConfiguration, message: m })
        },
        Some(saved) => {
            match &saved.strategy {
                Some(strategy) => {
                    if !same(strategy.as_str(), "Rolling") {
                        return Err(
                            complain(
                                RestartProblem::Strategy,
                                alias,
                                ": --recreate requires the ROLLING deployment strategy (found ",
                                strategy.as_str(),
                                "); min/max percentages do not provide stop-then-start under native blue/green or canary strategies",
                            ),
                        );
                    }
                },
                None => {},
            }
            Ok((saved.copy(), svc.az_rebalancing))
        },
    }
}

/// How long ECS waits for a container to stop.
#[derive(Debug)]
pub struct StopTimeout {
    pub name: Option<String>,
    pub essential: Option<bool>,
    pub stop_timeout: Option<i32>,
}

/// What is said of a container that may be killed before it has shut down.
pub open spec fn stop_timeout_warning(alias: Seq<char>, c: StopTimeout) -> Option<Seq<char>> {
    let name = match c.name {
        Some(name) => name@,
        None => "<unnamed>"@,
    };
    if c.essential == Some(false) {
        None
    } else {
        match c.stop_timeout {
            Some(t) => if t >= 120 {
                None
            } else {
                Some(
                    "⚠️  "@ + alias + "/"@ + name + ": stopTimeout is "@ + number::decimal_int(
                        t as int,
                    )
                        + "s — shutdown hooks longer than this will be killed (recommend 120)"@,
                )
            },
            None => Some(
                "⚠️  "@ + alias + "/"@ + name
                    + ": stopTimeout not set (default 30s) — shutdown hooks longer than 30s will be killed (recommend 120)"@,
            ),
        }
    }
}

/// What is said of the containers that may be killed before they have shut
/// down.
pub open spec fn stop_timeout_warnings(alias: Seq<char>, list: Seq<StopTimeout>) -> Seq<Seq<char>>
    decreases list.len(),
{
    if list.len() == 0 {
        Seq::empty()
    } else {
        let before = stop_timeout_warnings(alias, list.drop_last());
        match stop_timeout_warning(alias, list.last()) {
            Some(line) => before.push(line),
            None => before,
        }
    }
}

/// Lists what is said of the essential containers that may be killed before
/// they have shut down.
pub fn warn_stop_timeouts(alias: &str, list: &Vec<StopTimeout>) -> (r: Vec<String>)
    ensures
        text::texts(r@) == stop_timeout_warnings(alias@, list@),
{
    let mut out: Vec<String> = Vec::new();
    let mut i: usize = 0;
    assert(text::texts(out@) =~= stop_timeout_warnings(alias@, list@.take(0)));
    while i < list.len()
        invariant
            i <= list@.len(),
            text::texts(out@) == stop_timeout_warnings(alias@, list@.take(i as int)),
        decreases list@.len() - i,
    {
        let ghost before = text::texts(out@);
        let c = &list[i];
        proof {
            assert(list@.take(i + 1).drop_last() =~= list@.take(i as int));
            assert(list@.take(i + 1).last() == c);
        }
        let essential = match c.essential {
            Some(b) => b,
            None => true,
        };
        let enough = match c.stop_timeout {
            Some(t) => t >= 120,
            None => false,
        };
        if essential && !enough {
            let mut m = String::from_str("⚠️  ");
            m.append(alias);
            m.append("/");
            match &c.name {
                Some(name) => {
                    m.append(name.as_str());
                },
                None => {
                    m.append("<unnamed>");
                },
            }
            match c.stop_timeout {
                Some(t) => {
                    m.append(": stopTimeout is ");
                    m.append(number::to_decimal_int(t as i128).as_str());
                    m.append(
                        "s — shutdown hooks longer than this will be killed (recommend 120)",
                    );
                },
                None => {
                    m.append(
                        ": stopTimeout not set (default 30s) — shutdown hooks longer than 30s will be killed (recommend 120)",
                    );
                },
            }
            let ghost line = m@;
            out.push(m);
            assert(text::texts(out@) =~= before.push(line));
        }
        i = i + 1;
    }
    assert(list@.take(list@.len() as int) =~= list@);
    out
}

/// The word for a switch.
pub open spec fn switch_word(on: bool) -> Seq<char> {
    if on {
        "ENABLED"@
    } else {
        "DISABLED"@
    }
}

fn switch(on: bool) -> (r: &'static str)
    ensures
        r@ == switch_word(on),
{
    if on {
        "ENABLED"
    } else {
        "DISABLED"
    }
}

/// The line from which an operator can undo a restart by hand.
pub open spec fn snapshot_line<R>(
    alias: Seq<char>,
    saved: ConfigurationView<R>,
    az_enabled: bool,
) -> Seq<char> {
    let min = match saved.minimum_healthy_percent {
        Some(p) => p as int,
        None => 100,
    };
    let max = match saved.maximum_percent {
        Some(p) => p as int,
        None => 200,
    };
    "ℹ️  "@ + alias + ": recovery snapshot — minimumHealthyPercent="@ + number::decimal_int(min)
        + " maximumPercent="@ + number::decimal_int(max) + " availabilityZoneRebalancing="@
        + switch_word(az_enabled)
}

/// Writes the line from which an operator can undo a restart by hand.
pub fn recovery_snapshot<R>(
    alias: &str,
    saved: &DeploymentConfiguration<R>,
    az_enabled: bool,
) -> (r: String)
    ensures
        r@ == snapshot_line(alias@, saved@, az_enabled),
{
    let min: i32 = match saved.minimum_healthy_percent {
        Some(p) => p,
        None => 100,
    };
    let max: i32 = match saved.maximum_percent {
        Some(p) => p,
        None => 200,
    };
    let mut m = String::from_str("ℹ️  ");
    m.append(alias);
    m.append(": recovery snapshot — minimumHealthyPercent=");
    m.append(number::to_decimal_int(min as i128).as_str());
    m.append(" maximumPercent=");
    m.append(number::to_decimal_int(max as i128).as_str());
    m.append(" availabilityZoneRebalancing=");
    m.append(switch(az_enabled));
    m
}

/// Whether a service may have the temporary policy although giving it was
/// answered with an error: any trace of it counts.
pub open spec fn policy_may_be_live<R>(svc: StateView<R>, az_enabled: bool) -> bool {
    svc.deployment_configuration matches Some(c) && {
        ||| c.minimum_healthy_percent == Some(0i32)
        ||| c.maximum_percent == Some(100i32)
        ||| az_enabled && !svc.az_rebalancing
    }
}

/// Whether a service may have the temporary policy although giving it was
/// answered with an error.
pub fn temp_policy_may_be_live<R>(svc: &ServiceState<R>, az_enabled: bool) -> (r: bool)
    ensures
        r == policy_may_be_live(svc@, az_enabled),
{
    match &svc.deployment_configuration {
        Some(c) => temp_policy_owned(c, svc.az_rebalancing, az_enabled) || (az_enabled
            && !svc.az_rebalancing) || is_percent(c.minimum_healthy_percent, 0) || is_percent(
            c.maximum_percent,
            100,
        ),
        None => false,
    }
}

/// The identifier of the primary deployment.
pub open spec fn primary_id(list: Seq<DeploymentView>) -> Option<Seq<char>> {
    let p = deployment::primary_place(list, 0);
    if p < list.len() {
        list[p].id
    } else {
        None
    }
}

/// The identifier of the primary deployment.
pub fn primary_deployment_id(list: &Vec<Deployment>) -> (r: Option<String>)
    ensures
        text::opt_text(r) == primary_id(deployment::deployment_views(list@)),
{
    match deployment::find_primary(list) {
        Some(p) => {
            assert(deployment::deployment_views(list@)[p as int] == list@[p as int]@);
            text::copy_opt(&list[p].id)
        },
        None => None,
    }
}

/// Whether a service came to rest on the deployment that a restart made: what
/// is said if not.
pub open spec fn deployment_problem<R>(expected: Seq<char>, svc: Option<StateView<R>>) -> Option<
    Problem,
> {
    match svc {
        None => Some((RestartProblem::ServiceNotFound, "service not found"@)),
        Some(svc) => {
            let p = deployment::primary_place(svc.deployments, 0);
            if p >= svc.deployments.len() {
                Some((RestartProblem::NoPrimaryDeployment, "no PRIMARY deployment found"@))
            } else {
                let actual = match svc.deployments[p].id {
                    Some(id) => id,
                    None => ""@,
                };
                if actual != expected {
                    Some(
                        (
                            RestartProblem::OtherDeployment,
                            "service stabilized on deployment "@ + actual
                                + ", not the recreate deployment "@ + expected
                                + " — it was likely rolled back or superseded by a concurrent deploy"@,
                        ),
                    )
                } else {
                    None
                }
            }
        },
    }
}

/// Checks that a service came to rest on the deployment that a restart made. A
/// rollback, or somebody else's deployment, shows another one.
pub fn check_deployment<R>(expected: &str, svc: &Option<ServiceState<R>>) -> (r: Result<
    (),
    Error<RestartProblem>,
>)
    ensures
        match r {
            Ok(()) => deployment_problem(expected@, state_view(*svc)) is None,
            Err(e) => deployment_problem(expected@, state_view(*svc)) == Some(e@),
        },
{
    match svc {
        None => Err(
            Error {
                kind: RestartProblem::ServiceNotFound,
                message: String::from_str("service not found"),
            },
        ),
        Some(svc) => match deployment::find_primary(&svc.deployments) {
            None => Err(
                Error {
                    kind: RestartProblem::NoPrimaryDeployment,
                    message: String::from_str("no PRIMARY deployment found"),
                },
            ),
            Some(p) => {
                assert(svc@.deployments[p as int] == svc.deployments@[p as int]@);
                let actual = match &svc.deployments[p].id {
                    Some(id) => id.as_str(),
                    None => "",
                };
                if same(actual, expected) {
                    Ok(())
                } else {
                    let mut m = String::from_str("service stabilized on deployment ");
                    m.append(actual);
                    m.append(", not the recreate deployment ");
                    m.append(expected);
                    m.append(
                        " — it was likely rolled back or superseded by a concurrent deploy",
                    );
                    Err(Error { kind: RestartProblem::OtherDeployment, message: m })
                }
            },
        },
    }
}

/// What a service says, where there is one.
pub open spec fn state_view<R>(svc: Option<ServiceState<R>>) -> Option<StateView<R>> {
    match svc {
        Some(svc) => Some(svc@),
        None => None,
    }
}

/// What a look at a service before its policy is given back leads to.
#[verifier::ext_equal]
pub enum RestoreView<R> {
    /// The service has its old policy.
    Restored,
    /// The service is to be given this policy.
    Write(ConfigurationView<R>),
    /// The service is to be left alone.
    Refused(Problem),
}

/// What a look at a service before its policy is given back leads to. A service
/// that has neither the old nor the temporary policy was changed by somebody
/// else.
pub open spec fn restore_view<R>(
    svc: Option<StateView<R>>,
    saved: ConfigurationView<R>,
    az_enabled: bool,
) -> RestoreView<R> {
    match svc {
        None => RestoreView::Refused((RestartProblem::ServiceNotFound, "service not found"@)),
        Some(svc) => match svc.deployment_configuration {
            None => RestoreView::Refused(
                (
                    RestartProblem::NoConfiguration,
                    "service has no deploymentConfiguration before restore"@,
                ),
            ),
            Some(current) => if same_percentages(current, saved) && svc.az_rebalancing
                == az_enabled {
                RestoreView::Restored
            } else if !owned(current, svc.az_rebalancing, az_enabled) {
                RestoreView::Refused(
                    (
                        RestartProblem::OwnershipLost,
                        "ownership lost: the service's deployment configuration was changed concurrently (min/max are "@
                            + shown(current.minimum_healthy_percent) + "/"@ + shown(
                            current.maximum_percent,
                        ) + ") — not overwriting; reconcile manually or via your IaC"@,
                    ),
                )
            } else {
                RestoreView::Write(merged_view(current, saved))
            },
        },
    }
}

/// What a look at a service before its policy is given back leads to.
#[derive(Debug)]
pub enum RestoreDecision<R> {
    /// The service has its old policy.
    Restored,
    /// The service is to be given this policy.
    Write(DeploymentConfiguration<R>),
    /// The service is to be left alone.
    Refused(Error<RestartProblem>),
}

impl<R> View for RestoreDecision<R> {
    type V = RestoreView<R>;

    open spec fn view(&self) -> RestoreView<R> {
        match self {
            RestoreDecision::Restored => RestoreView::Restored,
            RestoreDecision::Write(c) => RestoreView::Write(c@),
            RestoreDecision::Refused(e) => RestoreView::Refused(e@),
        }
    }
}

/// Decides what to do with a service whose policy is to be given back.
pub fn decide_restore<R: Copy>(
    svc: &Option<ServiceState<R>>,
    saved: &DeploymentConfiguration<R>,
    az_enabled: bool,
) -> (r: RestoreDecision<R>)
    ensures
        r@ == restore_view(state_view(*svc), saved@, az_enabled),
{
    match svc {
        None => RestoreDecision::Refused(
            Error {
                kind: RestartProblem::ServiceNotFound,
                message: String::from_str("service not found"),
            },
        ),
        Some(svc) => match &svc.deployment_configuration {
            None => RestoreDecision::Refused(
                Error {
                    kind: RestartProblem::NoConfiguration,
                    message: String::from_str(
                        "service has no deploymentConfiguration before restore",
                    ),
                },
            ),
            Some(current) => {
                if same_percent(current.minimum_healthy_percent, saved.minimum_healthy_percent)
                    && same_percent(current.maximum_percent, saved.maximum_percent)
                    && svc.az_rebalancing == az_enabled {
                    return RestoreDecision::Restored;
                }
                if !temp_policy_owned(current, svc.az_rebalancing, az_enabled) {
                    let mut m = String::from_str(
                        "ownership lost: the service's deployment configuration was changed concurrently (min/max are ",
                    );
                    m.append(show(current.minimum_healthy_percent).as_str());
                    m.append("/");
                    m.append(show(current.maximum_percent).as_str());
                    m.append(") — not overwriting; reconcile manually or via your IaC");
                    return RestoreDecision::Refused(
                        Error { kind: RestartProblem::OwnershipLost, message: m },
                    );
                }
                RestoreDecision::Write(merged_restore_configuration(current, saved))
            },
        },
    }
}

/// What is wrong with a service that was given its policy back.
pub open spec fn restored_problem<R>(
    svc: Option<StateView<R>>,
    saved: ConfigurationView<R>,
    az_enabled: bool,
) -> Option<Problem> {
    match svc {
        None => Some((RestartProblem::ServiceNotFound, "service not found"@)),
        Some(svc) => match svc.deployment_configuration {
            None => Some(
                (
                    RestartProblem::NoConfiguration,
                    "service has no deploymentConfiguration after restore"@,
                ),
            ),
            Some(current) => if !same_percentages(current, saved) {
                Some((RestartProblem::NotRestored, not_restored_message(current, saved)))
            } else if svc.az_rebalancing != az_enabled {
                Some(
                    (
                        RestartProblem::ZoneRebalancing,
                        "availabilityZoneRebalancing is "@ + switch_word(svc.az_rebalancing)
                            + " after restore, expected "@ + switch_word(az_enabled),
                    ),
                )
            } else {
                None
            },
        },
    }
}

/// Checks that a service has its policy back.
pub fn check_restored<R>(
    svc: &Option<ServiceState<R>>,
    saved: &DeploymentConfiguration<R>,
    az_enabled: bool,
) -> (r: Result<(), Error<RestartProblem>>)
    ensures
        match r {
            Ok(()) => restored_problem(state_view(*svc), saved@, az_enabled) is None,
            Err(e) => restored_problem(state_view(*svc), saved@, az_enabled) == Some(e@),
        },
{
    match svc {
        None => Err(
            Error {
                kind: RestartProblem::ServiceNotFound,
                message: String::from_str("service not found"),
            },
        ),
        Some(svc) => match &svc.deployment_configuration {
            None => Err(
                Error {
                    kind: RestartProblem::NoConfiguration,
                    message: String::from_str(
                        "service has no deploymentConfiguration after restore",
                    ),
                },
            ),
            Some(current) => {
                match validate_restored_configuration(current, saved) {
                    Err(e) => {
                        return Err(e);
                    },
                    Ok(()) => {},
                }
                if svc.az_rebalancing != az_enabled {
                    let mut m = String::from_str("availabilityZoneRebalancing is ");
                    m.append(switch(svc.az_rebalancing));
                    m.append(" after restore, expected ");
                    m.append(switch(az_enabled));
                    return Err(Error { kind: RestartProblem::ZoneRebalancing, message: m });
                }
                Ok(())
            },
        },
    }
}

/// Giving a service its policy back and looking at it again shows it restored,
/// and nothing but the percentages has changed, if nobody else writes to it.
pub proof fn lemma_restore_converges<R>(
    svc: StateView<R>,
    saved: ConfigurationView<R>,
    az_enabled: bool,
    after: StateView<R>,
)
    requires
        restore_view(Some(svc), saved, az_enabled) is Write,
        after.deployment_configuration == Some(
            restore_view(Some(svc), saved, az_enabled)->Write_0,
        ),
        after.az_rebalancing == (az_enabled || svc.az_rebalancing),
        az_enabled || !svc.az_rebalancing,
    ensures
        restored_problem(Some(after), saved, az_enabled) is None,
        after.deployment_configuration->0.other == svc.deployment_configuration->0.other,
        after.deployment_configuration->0.strategy == svc.deployment_configuration->0.strategy,
{
}

/// The temporary policy is recognised as such, and taking it back gives the
/// saved policy.
pub proof fn lemma_recreate_is_undone<R>(saved: ConfigurationView<R>)
    ensures
        owned(recreate_view(saved), false, true),
        merged_view(recreate_view(saved), saved) == saved,
{
}

/// Stopping the old task first is accepted exactly for a single task of a replica
/// service, under the controller of ECS, whose policy is known and rolling. What is
/// not said by ECS is taken to be the default.
pub proof fn lemma_preflight_accepts<R>(alias: Seq<char>, svc: StateView<R>)
    ensures
        preflight_problem(alias, svc) is None <==> {
            &&& svc.deployment_controller is None || svc.deployment_controller == Some("Ecs"@)
            &&& svc.scheduling_strategy is None || svc.scheduling_strategy == Some("Replica"@)
            &&& svc.desired_count == 1
            &&& svc.deployment_configuration matches Some(c) && (c.strategy is None || c.strategy
                == Some("Rolling"@))
        },
{
}

/// What is named as the reason against it is what stands against it, and the first
/// such thing.
pub proof fn lemma_preflight_reason<R>(alias: Seq<char>, svc: StateView<R>)
    requires
        preflight_problem(alias, svc) is Some,
    ensures
        alias.is_prefix_of((preflight_problem(alias, svc)->0).1),
        ({
            let kind = (preflight_problem(alias, svc)->0).0;
            let controller = svc.deployment_controller is None || svc.deployment_controller
                == Some("Ecs"@);
            let scheduling = svc.scheduling_strategy is None || svc.scheduling_strategy == Some(
                "Replica"@,
            );
            &&& kind == RestartProblem::Controller <==> !controller
            &&& kind == RestartProblem::Scheduling <==> controller && !scheduling
            &&& kind == RestartProblem::NotASingleton <==> controller && scheduling
                && svc.desired_count != 1
            &&& kind == RestartProblem::NoConfiguration <==> controller && scheduling
                && svc.desired_count == 1 && svc.deployment_configuration is None
            &&& kind == RestartProblem::Strategy <==> controller && scheduling
                && svc.desired_count == 1 && svc.deployment_configuration is Some
        }),
{
    let message = (preflight_problem(alias, svc)->0).1;
    assert(message.take(alias.len() as int) =~= alias);
}

/// The temporary policy allows no task beside the one that is wanted, and demands
/// none while it is replaced; in all else it is the saved one.
pub proof fn lemma_temporary_policy<R>(saved: ConfigurationView<R>)
    ensures
        recreate_view(saved).minimum_healthy_percent == Some(0i32),
        recreate_view(saved).maximum_percent == Some(100i32),
        recreate_view(saved).strategy == saved.strategy,
        recreate_view(saved).other == saved.other,
{
}

/// What a service is given back are the saved percentages; what else was changed in
/// the meantime stays.
pub proof fn lemma_policy_given_back<R>(
    current: ConfigurationView<R>,
    saved: ConfigurationView<R>,
)
    ensures
        merged_view(current, saved).minimum_healthy_percent == saved.minimum_healthy_percent,
        merged_view(current, saved).maximum_percent == saved.maximum_percent,
        merged_view(current, saved).strategy == current.strategy,
        merged_view(current, saved).other == current.other,
{
}

/// A policy is the temporary one exactly if its percentages are 0 and 100, and the
/// rebalancing that was on before is off.
pub proof fn lemma_temporary_is_known<R>(c: ConfigurationView<R>, now: bool, before: bool)
    ensures
        owned(c, now, before) <==> c.minimum_healthy_percent == Some(0i32) && c.maximum_percent
            == Some(100i32) && !(before && now),
{
}

/// Before a policy is given back: where it is there already nothing is written;
/// where the temporary one is still there the saved percentages are written over it;
/// and everything else is refused.
pub proof fn lemma_restore_decision<R>(
    svc: Option<StateView<R>>,
    saved: ConfigurationView<R>,
    az_enabled: bool,
)
    ensures
        restore_view(svc, saved, az_enabled) is Restored <==> (svc matches Some(s)
            && s.deployment_configuration matches Some(c) && c.minimum_healthy_percent
            == saved.minimum_healthy_percent && c.maximum_percent == saved.maximum_percent
            && s.az_rebalancing == az_enabled),
        restore_view(svc, saved, az_enabled) matches RestoreView::Write(w) ==> (svc matches Some(s)
            && s.deployment_configuration matches Some(c) && c.minimum_healthy_percent == Some(
            0i32,
        ) && c.maximum_percent == Some(100i32) && !(az_enabled && s.az_rebalancing)
            && w.minimum_healthy_percent == saved.minimum_healthy_percent && w.maximum_percent
            == saved.maximum_percent && w.strategy == c.strategy && w.other == c.other),
        svc matches Some(s) && s.deployment_configuration matches Some(c)
            && c.minimum_healthy_percent == Some(0i32) && c.maximum_percent == Some(100i32) && !(
        az_enabled && s.az_rebalancing) ==> !(restore_view(svc, saved, az_enabled) is Refused),
        restore_view(svc, saved, az_enabled) matches RestoreView::Refused(p) ==> (p.0
            == RestartProblem::ServiceNotFound <==> svc is None) && (p.0
            == RestartProblem::OwnershipLost <==> svc is Some
            && svc->0.deployment_configuration is Some),
{
}

/// A policy counts as given back exactly if the saved percentages and the saved
/// rebalancing are seen.
pub proof fn lemma_given_back_is_seen<R>(
    svc: Option<StateView<R>>,
    saved: ConfigurationView<R>,
    az_enabled: bool,
)
    ensures
        restored_problem(svc, saved, az_enabled) is None <==> (svc matches Some(s)
            && s.deployment_configuration matches Some(c) && c.minimum_healthy_percent
            == saved.minimum_healthy_percent && c.maximum_percent == saved.maximum_percent
            && s.az_rebalancing == az_enabled),
        restored_problem(svc, saved, az_enabled) matches Some(p) ==> (p.0
            == RestartProblem::ServiceNotFound <==> svc is None) && (p.0
            == RestartProblem::NoConfiguration <==> (svc matches Some(s)
            && s.deployment_configuration is None)) && (p.0 == RestartProblem::ZoneRebalancing <==> (
        svc matches Some(s) && s.deployment_configuration matches Some(c)
            && c.minimum_healthy_percent == saved.minimum_healthy_percent && c.maximum_percent
            == saved.maximum_percent)),
{
}

/// After an error, the temporary policy is taken to be live where any trace of it is
/// seen; the policy that was saved shows none, unless it has such a value itself.
pub proof fn lemma_traces_of_policy<R>(svc: StateView<R>, az_enabled: bool)
    ensures
        svc.deployment_configuration is None ==> !policy_may_be_live(svc, az_enabled),
        svc.deployment_configuration matches Some(c) ==> (policy_may_be_live(svc, az_enabled)
            <==> c.minimum_healthy_percent == Some(0i32) || c.maximum_percent == Some(100i32) || (
        az_enabled && !svc.az_rebalancing)),
{
}

/// A service came to rest on the expected deployment exactly if its primary
/// deployment, which is the first of that status, has the expected identifier.
pub proof fn lemma_expected_deployment<R>(expected: Seq<char>, svc: StateView<R>, p: int)
    requires
        0 <= p < svc.deployments.len(),
        svc.deployments[p].status == Some("PRIMARY"@),
        forall|j: int|
            0 <= j < p ==> (#[trigger] svc.deployments[j]).status != Some("PRIMARY"@),
        expected.len() > 0,
    ensures
        deployment_problem(expected, Some(svc)) is None <==> svc.deployments[p].id == Some(
            expected,
        ),
        deployment_problem(expected, Some(svc)) matches Some(e) ==> e.0
            == RestartProblem::OtherDeployment,
        primary_id(svc.deployments) == svc.deployments[p].id,
{
    deployment::lemma_primary_is_first(svc.deployments);
    let q = deployment::primary_place(svc.deployments, 0);
    if q < p {
        assert(svc.deployments[q].status != Some("PRIMARY"@));
    }
    if p < q {
        assert(svc.deployments[p].status != Some("PRIMARY"@));
    }
    reveal_strlit("");
}

/// Without a service, or without a primary deployment, nothing came to rest.
pub proof fn lemma_nothing_came_to_rest<R>(expected: Seq<char>, svc: StateView<R>)
    requires
        forall|j: int|
            0 <= j < svc.deployments.len() ==> (#[trigger] svc.deployments[j]).status != Some(
                "PRIMARY"@,
            ),
    ensures
        deployment_problem::<R>(expected, None) matches Some(e) && e.0
            == RestartProblem::ServiceNotFound,
        deployment_problem(expected, Some(svc)) matches Some(e) && e.0
            == RestartProblem::NoPrimaryDeployment,
        primary_id(svc.deployments) is None,
{
    deployment::lemma_primary_is_first(svc.deployments);
    let q = deployment::primary_place(svc.deployments, 0);
    if q < svc.deployments.len() {
        assert(svc.deployments[q].status != Some("PRIMARY"@));
    }
}

/// A container is warned of exactly if it may be essential and is given less than
/// two minutes to stop; the warning names it.
pub proof fn lemma_short_stop_is_warned_of(alias: Seq<char>, c: StopTimeout)
    ensures
        stop_timeout_warning(alias, c) is Some <==> c.essential != Some(false) && (
        c.stop_timeout matches Some(t) ==> t < 120),
        stop_timeout_warning(alias, c) matches Some(line) ==> (c.name is Some ==> text::occurs(
            line,
            alias + "/"@ + c.name->0@,
        )),
{
    if let Some(line) = stop_timeout_warning(alias, c) {
        if c.name is Some {
            let needle = alias + "/"@ + c.name->0@;
            let n = "⚠️  "@.len() as int;
            assert(line.subrange(n, n + needle.len()) =~= needle);
        }
    }
}

/// Every container that is to be warned of is, in order, and no other one.
pub proof fn lemma_warnings_follow_list(alias: Seq<char>, list: Seq<StopTimeout>, c: StopTimeout)
    ensures
        stop_timeout_warnings(alias, Seq::empty()) == Seq::<Seq<char>>::empty(),
        c.essential != Some(false) && (c.stop_timeout matches Some(t) ==> t < 120)
            ==> stop_timeout_warnings(alias, list.push(c)).len() == stop_timeout_warnings(
            alias,
            list,
        ).len() + 1,
        !(c.essential != Some(false) && (c.stop_timeout matches Some(t) ==> t < 120))
            ==> stop_timeout_warnings(alias, list.push(c)) == stop_timeout_warnings(alias, list),
        stop_timeout_warnings(alias, list).is_prefix_of(
            stop_timeout_warnings(alias, list.push(c)),
        ),
{
    assert(list.push(c).drop_last() =~= list);
    let before = stop_timeout_warnings(alias, list);
    let after = stop_timeout_warnings(alias, list.push(c));
    assert(after.take(before.len() as int) =~= before);
}

/// The line for an operator gives the saved percentages, or those that ECS takes
/// where none are set, and whether tasks were rebalanced.
pub proof fn lemma_snapshot_tells_policy<R>(
    alias: Seq<char>,
    saved: ConfigurationView<R>,
    az_enabled: bool,
)
    ensures
        text::occurs(
            snapshot_line(alias, saved, az_enabled),
            "minimumHealthyPercent="@ + number::decimal_int(
                match saved.minimum_healthy_percent {
                    Some(p) => p as int,
                    None => 100,
                },
            ) + " maximumPercent="@ + number::decimal_int(
                match saved.maximum_percent {
                    Some(p) => p as int,
                    None => 200,
                },
            ) + " availabilityZoneRebalancing="@ + (if az_enabled {
                "ENABLED"@
            } else {
                "DISABLED"@
            }),
        ),
{
    let min = match saved.minimum_healthy_percent {
        Some(p) => p as int,
        None => 100,
    };
    let max = match saved.maximum_percent {
        Some(p) => p as int,
        None => 200,
    };
    let needle = "minimumHealthyPercent="@ + number::decimal_int(min) + " maximumPercent="@
        + number::decimal_int(max) + " availabilityZoneRebalancing="@ + (if az_enabled {
        "ENABLED"@
    } else {
        "DISABLED"@
    });
    reveal_strlit("minimumHealthyPercent=");
    reveal_strlit(": recovery snapshot — minimumHealthyPercent=");
    reveal_strlit(": recovery snapshot — ");
    let line = snapshot_line(alias, saved, az_enabled);
    assert(": recovery snapshot — minimumHealthyPercent="@ =~= ": recovery snapshot — "@
        + "minimumHealthyPercent="@);
    let n = ("ℹ️  "@ + alias + ": recovery snapshot — "@).len() as int;
    assert(line.subrange(n, n + needle.len()) =~= needle);
}

/// A number that is set is shown by its digits, and one that is not by a word.
pub proof fn lemma_shown_numbers(n: i32)
    ensures
        shown(None) == "None"@,
        shown(Some(n)) == "Some("@ + number::decimal_int(n as int) + ")"@,
{
}

} // verus!
