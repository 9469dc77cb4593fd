//! The deployments of a service, and when they have come to rest.

use crate::number;
use crate::text;
use crate::text::same;
use vstd::prelude::*;

verus! {

/// A deployment of a service.
#[derive(Debug)]
pub struct Deployment {
    pub id: Option<String>,
    pub status: Option<String>,
    pub running_count: i32,
    pub desired_count: i32,
    pub rollout_state: Option<String>,
}

/// What a [`Deployment`] says.
#[verifier::ext_equal]
pub struct DeploymentView {
    pub id: Option<Seq<char>>,
    pub status: Option<Seq<char>>,
    pub running_count: i32,
    pub desired_count: i32,
    pub rollout_state: Option<Seq<char>>,
}

impl View for Deployment {
    type V = DeploymentView;

    open spec fn view(&self) -> DeploymentView {
        DeploymentView {
            id: text::opt_text(self.id),
            status: text::opt_text(self.status),
            running_count: self.running_count,
            desired_count: self.desired_count,
            rollout_state: text::opt_text(self.rollout_state),
        }
    }
}

/// What the deployments of a service say.
pub open spec fn deployment_views(list: Seq<Deployment>) -> Seq<DeploymentView> {
    list.map_values(|d: Deployment| d@)
}

/// Whether a deployment is the one that a service is moving to.
pub open spec fn is_primary(d: DeploymentView) -> bool {
    d.status == Some("PRIMARY"@)
}

/// The place of the first primary deployment, from place `i` on; the number of
/// deployments where there is none.
pub open spec fn primary_place(list: Seq<DeploymentView>, i: int) -> int
    decreases list.len() - i,
{
    if i < 0 || i >= list.len() {
        list.len() as int
    } else if is_primary(list[i]) {
        i
    } else {
        primary_place(list, i + 1)
    }
}

/// The number of tasks that deployments other than the primary one run.
pub open spec fn old_tasks(list: Seq<DeploymentView>) -> int
    decreases list.len(),
{
    if list.len() == 0 {
        0
    } else {
        old_tasks(list.drop_last()) + if is_primary(list.last()) {
            0int
        } else {
            list.last().running_count as int
        }
    }
}

/// Whether the deployments of a service have come to rest: a single deployment
/// runs as many tasks as it should, or has been scaled to none; or the primary
/// one runs as many as it should and the others have no tasks left.
pub open spec fn stable(list: Seq<DeploymentView>) -> bool {
    if list.len() == 1 {
        ||| list[0].running_count == list[0].desired_count && list[0].desired_count > 0
        ||| list[0].desired_count == 0 && list[0].rollout_state == Some("COMPLETED"@)
    } else {
        let p = primary_place(list, 0);
        p < list.len() && list[p].running_count == list[p].desired_count && old_tasks(list) == 0
    }
}

/// The progress line that the deployments of a service call for.
pub open spec fn progress_line(list: Seq<DeploymentView>) -> Option<Seq<char>> {
    let p = primary_place(list, 0);
    if list.len() == 1 {
        let running = number::decimal_int(list[0].running_count as int);
        let desired = number::decimal_int(list[0].desired_count as int);
        if list[0].running_count == list[0].desired_count && list[0].desired_count > 0 {
            Some("\r  ✅ "@ + running + "/"@ + desired + " tasks running                    "@)
        } else if stable(list) {
            Some("\r  ✅ scaled to 0 (deployment complete)                    "@)
        } else {
            Some("\r  🚀 "@ + running + "/"@ + desired + " tasks running"@)
        }
    } else if p < list.len() {
        let running = number::decimal_int(list[p].running_count as int);
        let desired = number::decimal_int(list[p].desired_count as int);
        if stable(list) {
            Some("\r  ✅ "@ + running + "/"@ + desired + " tasks running                    "@)
        } else {
            Some(
                "\r  🔄 new: "@ + running + "/"@ + desired + " running, draining "@
                    + number::decimal_int(old_tasks(list)) + " old task(s)..."@,
            )
        }
    } else {
        None
    }
}

/// Finds the primary deployment.
pub fn find_primary(list: &Vec<Deployment>) -> (r: Option<usize>)
    ensures
        match r {
            Some(p) => p < list@.len() && p == primary_place(deployment_views(list@), 0),
            None => primary_place(deployment_views(list@), 0) == list@.len(),
        },
        r matches Some(p) ==> text::opt_text(list@[p as int].status) == Some("PRIMARY"@)
            && forall|j: int|
            0 <= j < p ==> text::opt_text((#[trigger] list@[j]).status) != Some("PRIMARY"@),
        r is None ==> forall|j: int|
            0 <= j < list@.len() ==> text::opt_text((#[trigger] list@[j]).status) != Some(
                "PRIMARY"@,
            ),
{
    let ghost all = deployment_views(list@);
    let mut i: usize = 0;
    while i < list.len()
        invariant
            i <= list@.len(),
            all == deployment_views(list@),
            primary_place(all, 0) == primary_place(all, i as int),
            forall|j: int|
                0 <= j < i ==> text::opt_text((#[trigger] list@[j]).status) != Some("PRIMARY"@),
        decreases list@.len() - i,
    {
        assert(all[i as int] == list@[i as int]@);
        match &list[i].status {
            Some(status) => {
                if same(status.as_str(), "PRIMARY") {
                    return Some(i);
                }
            },
            None => {},
        }
        i = i + 1;
    }
    None
}

fn count_old(list: &Vec<Deployment>) -> (r: i128)
    ensures
        r == old_tasks(deployment_views(list@)),
        -0x8000_0000 * (list@.len() as int) <= r <= 0x7fff_ffff * (list@.len() as int),
{
    let ghost all = deployment_views(list@);
    let mut total: i128 = 0;
    let mut i: usize = 0;
    assert(all.take(0) =~= Seq::empty());
    while i < list.len()
        invariant
            i <= list@.len(),
            all == deployment_views(list@),
            total == old_tasks(all.take(i as int)),
            -0x8000_0000 * (i as int) <= total <= 0x7fff_ffff * (i as int),
        decreases list@.len() - i,
    {
        let primary = match &list[i].status {
            Some(status) => same(status.as_str(), "PRIMARY"),
            None => false,
        };
        proof {
            assert(all.take(i + 1).drop_last() =~= all.take(i as int));
            assert(all.take(i + 1).last() == list@[i as int]@);
        }
        if !primary {
            total = total + list[i].running_count as i128;
        }
        i = i + 1;
    }
    assert(all.take(all.len() as int) =~= all);
    total
}

fn tally(start: &str, running: i32, desired: i32, rest: &str) -> (r: String)
    ensures
        r@ == start@ + number::decimal_int(running as int) + "/"@ + number::decimal_int(
            desired as int,
        ) + rest@,
{
    let mut m = String::from_str(start);
    m.append(number::to_decimal_int(running as i128).as_str());
    m.append("/");
    m.append(number::to_decimal_int(desired as i128).as_str());
    m.append(rest);
    m
}

/// How far the deployments of a service have come.
pub struct Progress {
    /// Whether they have come to rest.
    pub done: bool,
    /// The line to show, which takes the place of the one before it.
    pub line: Option<String>,
}

/// Judges how far the deployments of a service have come.
pub fn progress(list: &Vec<Deployment>) -> (r: Progress)
    ensures
        r.done == stable(deployment_views(list@)),
        text::opt_text(r.line) == progress_line(deployment_views(list@)),
        list@.len() == 1 ==> (r.done <==> (list@[0].desired_count > 0 && list@[0].running_count
            == list@[0].desired_count) || (list@[0].desired_count == 0 && text::opt_text(
            list@[0].rollout_state,
        ) == Some("COMPLETED"@))),
        list@.len() != 1 && r.done ==> exists|p: int|
            0 <= p < list@.len() && text::opt_text((#[trigger] list@[p]).status) == Some(
                "PRIMARY"@,
            ) && list@[p].running_count == list@[p].desired_count,
        list@.len() != 1 && r.done && (forall|i: int|
            0 <= i < list@.len() ==> (#[trigger] list@[i]).running_count >= 0) ==> forall|i: int|
            0 <= i < list@.len() && text::opt_text((#[trigger] list@[i]).status) != Some(
                "PRIMARY"@,
            ) ==> list@[i].running_count == 0,
{
    let ghost all = deployment_views(list@);
    if list.len() == 1 {
        let d = &list[0];
        assert(all[0] == d@);
        if d.running_count == d.desired_count && d.desired_count > 0 {
            return Progress {
                done: true,
                line: Some(
                    tally(
                        "\r  ✅ ",
                        d.running_count,
                        d.desired_count,
                        " tasks running                    ",
                    ),
                ),
            };
        }
        let completed = match &d.rollout_state {
            Some(state) => same(state.as_str(), "COMPLETED"),
            None => false,
        };
        if d.desired_count == 0 && completed {
            return Progress {
                done: true,
                line: Some(
                    String::from_str("\r  ✅ scaled to 0 (deployment complete)                    "),
                ),
            };
        }
        return Progress {
            done: false,
            line: Some(tally("\r  🚀 ", d.running_count, d.desired_count, " tasks running")),
        };
    }
    match find_primary(list) {
        Some(p) => {
            let d = &list[p];
            assert(all[p as int] == d@);
            let left = count_old(list);
            if d.running_count == d.desired_count && left == 0 {
                proof {
                    if forall|i: int|
                        0 <= i < list@.len() ==> (#[trigger] list@[i]).running_count >= 0 {
                        assert forall|i: int| 0 <= i < all.len() implies (
                        #[trigger] all[i]).running_count >= 0 by {
                            assert(all[i] == list@[i]@);
                        }
                        lemma_no_old_tasks(all);
                        assert forall|i: int|
                            0 <= i < list@.len() && text::opt_text(
                                (#[trigger] list@[i]).status,
                            ) != Some("PRIMARY"@) implies list@[i].running_count == 0 by {
                            assert(all[i] == list@[i]@);
                        }
                    }
                }
                Progress {
                    done: true,
                    line: Some(
                        tally(
                            "\r  ✅ ",
                            d.running_count,
                            d.desired_count,
                            " tasks running                    ",
                        ),
                    ),
                }
            } else {
                let mut m = tally(
                    "\r  🔄 new: ",
                    d.running_count,
                    d.desired_count,
                    " running, draining ",
                );
                m.append(number::to_decimal_int(left).as_str());
                m.append(" old task(s)...");
                Progress { done: false, line: Some(m) }
            }
        },
        None => Progress { done: false, line: None },
    }
}

/// Where no count is negative, the tasks that other deployments run are none exactly
/// if each of them runs none.
proof fn lemma_no_old_tasks(list: Seq<DeploymentView>)
    requires
        forall|i: int| 0 <= i < list.len() ==> (#[trigger] list[i]).running_count >= 0,
    ensures
        old_tasks(list) >= 0,
        old_tasks(list) == 0 <==> forall|i: int|
            0 <= i < list.len() && (#[trigger] list[i]).status != Some("PRIMARY"@)
                ==> list[i].running_count == 0,
    decreases list.len(),
{
    if list.len() > 0 {
        let front = list.drop_last();
        assert forall|i: int| 0 <= i < front.len() implies (#[trigger] front[i]).running_count
            >= 0 by {
            assert(front[i] == list[i]);
        }
        lemma_no_old_tasks(front);
        let n = list.len() - 1;
        assert(list[n].running_count >= 0);
        if old_tasks(list) == 0 {
            assert forall|i: int|
                0 <= i < list.len() && (#[trigger] list[i]).status != Some(
                    "PRIMARY"@,
                ) implies list[i].running_count == 0 by {
                if i < n {
                    assert(front[i] == list[i]);
                }
            }
        } else {
            if forall|i: int|
                0 <= i < list.len() && (#[trigger] list[i]).status != Some("PRIMARY"@)
                    ==> list[i].running_count == 0 {
                assert forall|i: int|
                    0 <= i < front.len() && (#[trigger] front[i]).status != Some(
                        "PRIMARY"@,
                    ) implies front[i].running_count == 0 by {
                    assert(front[i] == list[i]);
                }
                assert(list[n].status != Some("PRIMARY"@) ==> list[n].running_count == 0);
            }
        }
    }
}

proof fn lemma_primary_place(list: Seq<DeploymentView>, i: int)
    requires
        0 <= i <= list.len(),
    ensures
        i <= primary_place(list, i) <= list.len(),
        primary_place(list, i) < list.len() ==> list[primary_place(list, i)].status == Some(
            "PRIMARY"@,
        ),
        forall|j: int|
            i <= j < primary_place(list, i) ==> (#[trigger] list[j]).status != Some("PRIMARY"@),
    decreases list.len() - i,
{
    if i < list.len() && list[i].status != Some("PRIMARY"@) {
        lemma_primary_place(list, i + 1);
    }
}

/// The primary deployment is the first whose status is `PRIMARY`.
pub proof fn lemma_primary_is_first(list: Seq<DeploymentView>)
    ensures
        0 <= primary_place(list, 0) <= list.len(),
        primary_place(list, 0) < list.len() ==> list[primary_place(list, 0)].status == Some(
            "PRIMARY"@,
        ),
        forall|j: int|
            0 <= j < primary_place(list, 0) ==> (#[trigger] list[j]).status != Some("PRIMARY"@),
{
    lemma_primary_place(list, 0);
}

/// A single deployment has come to rest exactly if it runs all of the tasks that it
/// should, or should run none and is completed.
pub proof fn lemma_single_at_rest(d: DeploymentView)
    ensures
        stable(seq![d]) <==> (d.desired_count > 0 && d.running_count == d.desired_count) || (
        d.desired_count == 0 && d.rollout_state == Some("COMPLETED"@)),
{
}

/// Several deployments have come to rest exactly if the primary one runs as many
/// tasks as it should, and no other one runs any; none of them never have.
pub proof fn lemma_several_at_rest(list: Seq<DeploymentView>)
    requires
        list.len() != 1,
        forall|i: int| 0 <= i < list.len() ==> (#[trigger] list[i]).running_count >= 0,
    ensures
        stable(list) <==> {
            &&& exists|p: int|
                0 <= p < list.len() && (#[trigger] list[p]).status == Some("PRIMARY"@)
                    && list[p].running_count == list[p].desired_count && forall|j: int|
                    0 <= j < p ==> (#[trigger] list[j]).status != Some("PRIMARY"@)
            &&& forall|i: int|
                0 <= i < list.len() && (#[trigger] list[i]).status != Some("PRIMARY"@)
                    ==> list[i].running_count == 0
        },
{
    lemma_no_old_tasks(list);
    lemma_primary_place(list, 0);
    let p = primary_place(list, 0);
    if p < list.len() {
        assert(list[p].status == Some("PRIMARY"@));
        assert forall|q: int|
            0 <= q < list.len() && (#[trigger] list[q]).status == Some("PRIMARY"@) && (forall|
                j: int,
            |
                0 <= j < q ==> (#[trigger] list[j]).status != Some("PRIMARY"@)) implies q == p by {
            if q < p {
                assert(list[q].status != Some("PRIMARY"@));
            }
        }
    }
}

/// Deployments never have come to rest while the primary one lacks a task, whatever
/// the others do.
pub proof fn lemma_missing_task_is_no_rest(list: Seq<DeploymentView>, p: int)
    requires
        0 <= p < list.len(),
        list[p].status == Some("PRIMARY"@),
        forall|j: int| 0 <= j < p ==> (#[trigger] list[j]).status != Some("PRIMARY"@),
        list[p].running_count != list[p].desired_count,
        list[p].desired_count > 0,
    ensures
        !stable(list),
{
    lemma_primary_place(list, 0);
    let q = primary_place(list, 0);
    if q < p {
        assert(list[q].status != Some("PRIMARY"@));
    }
    if p < q {
        assert(list[p].status != Some("PRIMARY"@));
    }
}

/// The line that is shown carries the mark of success exactly if the deployments have
/// come to rest; and there is one wherever there is a single deployment or a primary
/// one.
pub proof fn lemma_line_tells_rest(list: Seq<DeploymentView>)
    ensures
        progress_line(list) is Some <==> list.len() == 1 || exists|p: int|
            0 <= p < list.len() && (#[trigger] list[p]).status == Some("PRIMARY"@),
        progress_line(list) matches Some(line) ==> line.len() > 3 && (stable(list) <==> line[3]
            == '✅'),
        stable(list) ==> progress_line(list) is Some,
{
    lemma_primary_place(list, 0);
    let p = primary_place(list, 0);
    if p < list.len() {
        assert(list[p].status == Some("PRIMARY"@));
    }
    reveal_strlit("\r  ✅ ");
    reveal_strlit("\r  🚀 ");
    reveal_strlit("\r  🔄 new: ");
    reveal_strlit("\r  ✅ scaled to 0 (deployment complete)                    ");
}

/// What the line says of a deployment: how many tasks it runs, and how many it should
/// run.
pub proof fn lemma_line_shows_counts(list: Seq<DeploymentView>, p: int)
    requires
        0 <= p < list.len(),
        list.len() == 1 ==> list[0].desired_count != 0,
        list.len() != 1 ==> list[p].status == Some("PRIMARY"@) && forall|j: int|
            0 <= j < p ==> (#[trigger] list[j]).status != Some("PRIMARY"@),
    ensures
        progress_line(list) matches Some(line) && text::occurs(
            line,
            number::decimal_int(list[p].running_count as int) + "/"@ + number::decimal_int(
                list[p].desired_count as int,
            ),
        ),
{
    lemma_primary_place(list, 0);
    let q = primary_place(list, 0);
    if list.len() != 1 {
        if q < p {
            assert(list[q].status != Some("PRIMARY"@));
        }
        if p < q {
            assert(list[p].status != Some("PRIMARY"@));
        }
    }
    let line = progress_line(list)->0;
    let needle = number::decimal_int(list[p].running_count as int) + "/"@ + number::decimal_int(
        list[p].desired_count as int,
    );
    reveal_strlit("\r  ✅ ");
    reveal_strlit("\r  🚀 ");
    reveal_strlit("\r  🔄 new: ");
    let n = if list.len() == 1 || stable(list) {
        5int
    } else {
        10int
    };
    assert(line.subrange(n, n + needle.len()) =~= needle);
}

} // verus!
